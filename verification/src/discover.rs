//! Finding the files that mods bring along.
//!
//! Mods are folders and zip files. Each of them is a root, and the files below it are named like the
//! files of the archive that they replace. Walking the file system is left to the caller, who hands
//! over what was found.

use crate::add_files::NewFile;
use crate::checksum::{continue_crc, crc_continued};
use crate::data::FilePath;
use crate::hash40::{hash40_str, Hash40};
use crate::hash_interner::{CacheView, HashMemorySlab, InternerCache, SlabView};
use crate::locale::{
    language_at, law_numbers, locale_at, region_at, Language, Locale, LocalePreferences, Region,
    LANGUAGE_COUNT, LOCALE_COUNT, REGION_COUNT,
};
use crate::paths::{extension, extension_in, path_file_name};
use crate::regional::{cache_path, cached, detect, detect_regional, Regional};
use crate::strings::str_eq;
use crate::words::{le_byte, le_bytes};
use std::collections::BTreeMap;
use vstd::prelude::*;
use vstd::std_specs::iter::IteratorSpec;
use vstd::string::StringExecFns;
use vstd::utf8::encode_utf8;

verus! {

broadcast use {vstd::laws_cmp::group_laws_cmp, vstd::std_specs::btree::group_btree_axioms};

/// How a file is loaded.
#[derive(Copy, Clone, Debug, PartialEq, Eq, Structural)]
pub enum LoadableFile {
    UncompressedOnDisk,
    ZipFile { compressed_size: u32, decompressed_size: u32, compressed_start: u32 },
}

/// A file of a mod.
#[derive(Copy, Clone, Debug, PartialEq, Eq, Structural)]
pub struct DiscoveredFile {
    pub root_idx: u32,
    pub size: u32,
    pub regional: Option<Regional>,
    pub file: LoadableFile,
}

impl DiscoveredFile {
    /// Size of the file's bytes in its zip file, if it is in one.
    pub fn compressed_size(&self) -> (r: Option<u32>)
        ensures
            r == match self.file {
                LoadableFile::ZipFile { compressed_size, .. } => Some(compressed_size),
                LoadableFile::UncompressedOnDisk => None,
            },
    {
        match self.file {
            LoadableFile::ZipFile { compressed_size, .. } => Some(compressed_size),
            LoadableFile::UncompressedOnDisk => None,
        }
    }

    pub fn size(&self) -> (r: u32)
        ensures
            r == self.size,
    {
        self.size
    }
}

/// The files that replace one path.
pub struct FilesView {
    pub base: Option<DiscoveredFile>,
    pub regions: Seq<Option<DiscoveredFile>>,
    pub languages: Seq<Option<DiscoveredFile>>,
    pub locales: Seq<Option<DiscoveredFile>>,
}

impl FilesView {
    pub open spec fn empty() -> FilesView {
        FilesView {
            base: None,
            regions: Seq::new(REGION_COUNT as nat, |i: int| None),
            languages: Seq::new(LANGUAGE_COUNT as nat, |i: int| None),
            locales: Seq::new(LOCALE_COUNT as nat, |i: int| None),
        }
    }

    pub open spec fn wf(self) -> bool {
        self.regions.len() == REGION_COUNT && self.languages.len() == LANGUAGE_COUNT
            && self.locales.len() == LOCALE_COUNT
    }

    /// Is there a place for files of this kind? There is none for files in Korean.
    pub open spec fn has_place(regional: Option<Regional>) -> bool {
        regional matches Some(Regional::Language(l)) ==> l.number() < LANGUAGE_COUNT
    }

    /// The file at a place.
    pub open spec fn at(self, regional: Option<Regional>) -> Option<DiscoveredFile> {
        match regional {
            None => self.base,
            Some(Regional::Region(r)) => self.regions[r.number()],
            Some(Regional::Language(l)) => self.languages[l.number()],
            Some(Regional::Locale(l)) => self.locales[l.number()],
        }
    }

    /// The files with another one at a place.
    pub open spec fn put(self, regional: Option<Regional>, file: DiscoveredFile) -> FilesView {
        match regional {
            None => FilesView { base: Some(file), ..self },
            Some(Regional::Region(r)) => FilesView {
                regions: self.regions.update(r.number(), Some(file)),
                ..self
            },
            Some(Regional::Language(l)) => FilesView {
                languages: self.languages.update(l.number(), Some(file)),
                ..self
            },
            Some(Regional::Locale(l)) => FilesView {
                locales: self.locales.update(l.number(), Some(file)),
                ..self
            },
        }
    }

    /// The file to load under the preferences: that of the locale before that of the language, that of
    /// the region, and the one for all.
    pub open spec fn preferred(self, prefs: LocalePreferences) -> Option<DiscoveredFile> {
        if self.locales[prefs.locale.number()] is Some {
            self.locales[prefs.locale.number()]
        } else if prefs.language.number() < LANGUAGE_COUNT
            && self.languages[prefs.language.number()] is Some {
            self.languages[prefs.language.number()]
        } else if self.regions[prefs.region.number()] is Some {
            self.regions[prefs.region.number()]
        } else {
            self.base
        }
    }
}

/// Those of the files that are there.
pub open spec fn somes(s: Seq<Option<DiscoveredFile>>) -> Seq<DiscoveredFile>
    decreases s.len(),
{
    if s.len() == 0 {
        Seq::empty()
    } else {
        match s.last() {
            Some(file) => somes(s.drop_last()).push(file),
            None => somes(s.drop_last()),
        }
    }
}

impl FilesView {
    /// All files: those for locales, for languages, for regions, and the one for all.
    pub open spec fn ordered(self) -> Seq<DiscoveredFile> {
        somes(self.locales) + somes(self.languages) + somes(self.regions) + somes(seq![self.base])
    }

    /// Each file says what the place that it is at is for.
    pub open spec fn placed(self) -> bool {
        forall|r: Option<Regional>| #[trigger]
            FilesView::has_place(r) ==> (self.at(r) matches Some(f) ==> f.regional == r)
    }
}

/// What is there in a run of places comes out once, if no two places hold files for the same.
proof fn lemma_somes(s: Seq<Option<DiscoveredFile>>)
    requires
        forall|i: int, j: int|
            0 <= i < j < s.len() && (#[trigger] s[i]) is Some && (#[trigger] s[j]) is Some
                ==> s[i]->0.regional != s[j]->0.regional,
    ensures
        forall|j: int| 0 <= j < somes(s).len() ==> s.contains(Some(#[trigger] somes(s)[j])),
        forall|i: int|
            0 <= i < s.len() && (#[trigger] s[i]) is Some ==> somes(s).contains(s[i]->0),
        forall|j: int, k: int|
            0 <= j < k < somes(s).len() ==> (#[trigger] somes(s)[j]).regional != (
            #[trigger] somes(s)[k]).regional,
    decreases s.len(),
{
    if s.len() > 0 {
        let t = s.drop_last();
        let n = s.len() - 1;
        assert forall|i: int, j: int|
            0 <= i < j < t.len() && (#[trigger] t[i]) is Some && (
            #[trigger] t[j]) is Some implies t[i]->0.regional != t[j]->0.regional by {
            assert(t[i] == s[i] && t[j] == s[j]);
        }
        lemma_somes(t);
        let a = somes(t);
        let b = somes(s);
        assert(s.last() == s[n]);
        assert forall|j: int| 0 <= j < b.len() implies s.contains(Some(#[trigger] b[j])) by {
            if j < a.len() {
                assert(b[j] == a[j]);
                assert(t.contains(Some(a[j])));
                let i = choose|i: int| 0 <= i < t.len() && t[i] == Some(a[j]);
                assert(s[i] == Some(b[j]));
            } else {
                assert(s[n] == Some(b[j]));
            }
        }
        assert forall|i: int| 0 <= i < s.len() && (#[trigger] s[i]) is Some implies b.contains(
            s[i]->0,
        ) by {
            if i < n {
                assert(t[i] == s[i]);
                assert(a.contains(t[i]->0));
                let j = choose|j: int| 0 <= j < a.len() && a[j] == t[i]->0;
                assert(b[j] == s[i]->0);
            } else {
                assert(b[a.len() as int] == s[n]->0);
            }
        }
        assert forall|j: int, k: int| 0 <= j < k < b.len() implies (#[trigger] b[j]).regional != (
        #[trigger] b[k]).regional by {
            assert(b[j] == a[j]);
            if k < a.len() {
                assert(b[k] == a[k]);
            } else {
                assert(t.contains(Some(a[j])));
                let i = choose|i: int| 0 <= i < t.len() && t[i] == Some(a[j]);
                assert(s[i] == Some(b[j]) && s[n] == Some(b[k]));
            }
        }
    }
}

/// The group of places that a place is in.
spec fn kind_of(r: Option<Regional>) -> int {
    match r {
        Some(Regional::Locale(_)) => 0,
        Some(Regional::Language(_)) => 1,
        Some(Regional::Region(_)) => 2,
        None => 3,
    }
}

/// All these files are at places of one group, each at its own.
spec fn all_of(t: Seq<DiscoveredFile>, kind: int, v: FilesView) -> bool {
    &&& forall|j: int|
        0 <= j < t.len() ==> kind_of((#[trigger] t[j]).regional) == kind && FilesView::has_place(
            t[j].regional,
        ) && v.at(t[j].regional) == Some(t[j])
    &&& forall|j: int, k: int|
        0 <= j < k < t.len() ==> (#[trigger] t[j]).regional != (#[trigger] t[k]).regional
}

proof fn lemma_locales(v: FilesView)
    requires
        v.wf(),
        v.placed(),
    ensures
        all_of(somes(v.locales), 0, v),
        forall|i: int|
            0 <= i < v.locales.len() && (#[trigger] v.locales[i]) is Some ==> somes(v.locales).contains(
                v.locales[i]->0,
            ),
{
    let s = v.locales;
    assert forall|i: int| 0 <= i < s.len() && (#[trigger] s[i]) is Some implies s[i]->0.regional
        == Some(Regional::Locale(locale_at(i))) && v.at(s[i]->0.regional) == s[i] && FilesView::has_place(
        s[i]->0.regional,
    ) by {
        law_numbers(i, Locale::Japanese, Region::Japan, Language::Japanese);
        assert(FilesView::has_place(Some(Regional::Locale(locale_at(i)))));
    }
    assert forall|i: int, j: int|
        0 <= i < j < s.len() && (#[trigger] s[i]) is Some && (
        #[trigger] s[j]) is Some implies s[i]->0.regional != s[j]->0.regional by {
        law_numbers(i, Locale::Japanese, Region::Japan, Language::Japanese);
        law_numbers(j, Locale::Japanese, Region::Japan, Language::Japanese);
    }
    lemma_somes(s);
    let t = somes(s);
    assert forall|j: int| 0 <= j < t.len() implies kind_of((#[trigger] t[j]).regional) == 0
        && FilesView::has_place(t[j].regional) && v.at(t[j].regional) == Some(t[j]) by {
        assert(s.contains(Some(t[j])));
        let i = choose|i: int| 0 <= i < s.len() && s[i] == Some(t[j]);
        assert(s[i] is Some);
    }
}

proof fn lemma_languages(v: FilesView)
    requires
        v.wf(),
        v.placed(),
    ensures
        all_of(somes(v.languages), 1, v),
        forall|i: int|
            0 <= i < v.languages.len() && (#[trigger] v.languages[i]) is Some ==> somes(v.languages).contains(
                v.languages[i]->0,
            ),
{
    let s = v.languages;
    assert forall|i: int| 0 <= i < s.len() && (#[trigger] s[i]) is Some implies s[i]->0.regional
        == Some(Regional::Language(language_at(i))) && v.at(s[i]->0.regional) == s[i] && FilesView::has_place(
        s[i]->0.regional,
    ) by {
        law_numbers(i, Locale::Japanese, Region::Japan, Language::Japanese);
        assert(FilesView::has_place(Some(Regional::Language(language_at(i)))));
    }
    assert forall|i: int, j: int|
        0 <= i < j < s.len() && (#[trigger] s[i]) is Some && (
        #[trigger] s[j]) is Some implies s[i]->0.regional != s[j]->0.regional by {
        law_numbers(i, Locale::Japanese, Region::Japan, Language::Japanese);
        law_numbers(j, Locale::Japanese, Region::Japan, Language::Japanese);
    }
    lemma_somes(s);
    let t = somes(s);
    assert forall|j: int| 0 <= j < t.len() implies kind_of((#[trigger] t[j]).regional) == 1
        && FilesView::has_place(t[j].regional) && v.at(t[j].regional) == Some(t[j]) by {
        assert(s.contains(Some(t[j])));
        let i = choose|i: int| 0 <= i < s.len() && s[i] == Some(t[j]);
        assert(s[i] is Some);
    }
}

proof fn lemma_regions(v: FilesView)
    requires
        v.wf(),
        v.placed(),
    ensures
        all_of(somes(v.regions), 2, v),
        forall|i: int|
            0 <= i < v.regions.len() && (#[trigger] v.regions[i]) is Some ==> somes(v.regions).contains(
                v.regions[i]->0,
            ),
{
    let s = v.regions;
    assert forall|i: int| 0 <= i < s.len() && (#[trigger] s[i]) is Some implies s[i]->0.regional
        == Some(Regional::Region(region_at(i))) && v.at(s[i]->0.regional) == s[i] && FilesView::has_place(
        s[i]->0.regional,
    ) by {
        law_numbers(i, Locale::Japanese, Region::Japan, Language::Japanese);
        assert(FilesView::has_place(Some(Regional::Region(region_at(i)))));
    }
    assert forall|i: int, j: int|
        0 <= i < j < s.len() && (#[trigger] s[i]) is Some && (
        #[trigger] s[j]) is Some implies s[i]->0.regional != s[j]->0.regional by {
        law_numbers(i, Locale::Japanese, Region::Japan, Language::Japanese);
        law_numbers(j, Locale::Japanese, Region::Japan, Language::Japanese);
    }
    lemma_somes(s);
    let t = somes(s);
    assert forall|j: int| 0 <= j < t.len() implies kind_of((#[trigger] t[j]).regional) == 2
        && FilesView::has_place(t[j].regional) && v.at(t[j].regional) == Some(t[j]) by {
        assert(s.contains(Some(t[j])));
        let i = choose|i: int| 0 <= i < s.len() && s[i] == Some(t[j]);
        assert(s[i] is Some);
    }
}

proof fn lemma_base(v: FilesView)
    requires
        v.placed(),
    ensures
        all_of(somes(seq![v.base]), 3, v),
        v.base is Some ==> somes(seq![v.base]).contains(v.base->0),
{
    let s = seq![v.base];
    assert(FilesView::has_place(None));
    assert(s[0] == v.base);
    lemma_somes(s);
    let t = somes(s);
    assert forall|j: int| 0 <= j < t.len() implies kind_of((#[trigger] t[j]).regional) == 3
        && FilesView::has_place(t[j].regional) && v.at(t[j].regional) == Some(t[j]) by {
        assert(s.contains(Some(t[j])));
    }
}

proof fn lemma_all_of_join(a: Seq<DiscoveredFile>, b: Seq<DiscoveredFile>, v: FilesView, k: int)
    requires
        forall|j: int|
            0 <= j < a.len() ==> kind_of((#[trigger] a[j]).regional) < k && FilesView::has_place(
                a[j].regional,
            ) && v.at(a[j].regional) == Some(a[j]),
        forall|i: int, j: int|
            0 <= i < j < a.len() ==> (#[trigger] a[i]).regional != (#[trigger] a[j]).regional,
        all_of(b, k, v),
    ensures
        forall|j: int|
            0 <= j < (a + b).len() ==> kind_of((#[trigger] (a + b)[j]).regional) < k + 1
                && FilesView::has_place((a + b)[j].regional) && v.at((a + b)[j].regional) == Some(
                (a + b)[j],
            ),
        forall|i: int, j: int|
            0 <= i < j < (a + b).len() ==> (#[trigger] (a + b)[i]).regional != (
            #[trigger] (a + b)[j]).regional,
        forall|x: DiscoveredFile| #[trigger] (a + b).contains(x) <==> a.contains(x) || b.contains(x),
{
    let c = a + b;
    assert forall|j: int| 0 <= j < c.len() implies kind_of((#[trigger] c[j]).regional) < k + 1
        && FilesView::has_place(c[j].regional) && v.at(c[j].regional) == Some(c[j]) by {
        if j < a.len() {
            assert(c[j] == a[j]);
        } else {
            assert(c[j] == b[j - a.len()]);
        }
    }
    assert forall|i: int, j: int| 0 <= i < j < c.len() implies (#[trigger] c[i]).regional != (
    #[trigger] c[j]).regional by {
        if j < a.len() {
            assert(c[i] == a[i] && c[j] == a[j]);
        } else if i < a.len() {
            assert(c[i] == a[i] && c[j] == b[j - a.len()]);
        } else {
            assert(c[i] == b[i - a.len()] && c[j] == b[j - a.len()]);
        }
    }
    assert forall|x: DiscoveredFile| #[trigger] c.contains(x) <==> a.contains(x) || b.contains(x) by {
        if a.contains(x) {
            let i = choose|i: int| 0 <= i < a.len() && a[i] == x;
            assert(c[i] == x);
        }
        if b.contains(x) {
            let i = choose|i: int| 0 <= i < b.len() && b[i] == x;
            assert(c[a.len() + i] == x);
        }
        if c.contains(x) {
            let i = choose|i: int| 0 <= i < c.len() && c[i] == x;
            if i < a.len() {
                assert(a[i] == x);
            } else {
                assert(b[i - a.len()] == x);
            }
        }
    }
}

/// The ordered files are those at all places, each once.
pub proof fn law_ordered(v: FilesView)
    requires
        v.wf(),
        v.placed(),
    ensures
        forall|j: int|
            0 <= j < v.ordered().len() ==> FilesView::has_place((#[trigger] v.ordered()[j]).regional)
                && v.at(v.ordered()[j].regional) == Some(v.ordered()[j]),
        forall|r: Option<Regional>|
            #[trigger] FilesView::has_place(r) && v.at(r) is Some ==> v.ordered().contains(v.at(r)->0),
        forall|j: int, k: int|
            0 <= j < k < v.ordered().len() ==> (#[trigger] v.ordered()[j]).regional != (
            #[trigger] v.ordered()[k]).regional,
{
    let a = somes(v.locales);
    let b = somes(v.languages);
    let c = somes(v.regions);
    let d = somes(seq![v.base]);
    lemma_locales(v);
    lemma_languages(v);
    lemma_regions(v);
    lemma_base(v);
    lemma_all_of_join(a, b, v, 1);
    lemma_all_of_join(a + b, c, v, 2);
    lemma_all_of_join(a + b + c, d, v, 3);
    assert forall|r: Option<Regional>|
        #[trigger] FilesView::has_place(r) && v.at(r) is Some implies v.ordered().contains(
        v.at(r)->0,
    ) by {
        match r {
            Some(Regional::Locale(l)) => {
                law_numbers(0, l, Region::Japan, Language::Japanese);
                assert(v.locales[l.number()] is Some);
            },
            Some(Regional::Language(l)) => {
                law_numbers(0, Locale::Japanese, Region::Japan, l);
                assert(v.languages[l.number()] is Some);
            },
            Some(Regional::Region(l)) => {
                law_numbers(0, Locale::Japanese, l, Language::Japanese);
                assert(v.regions[l.number()] is Some);
            },
            None => {},
        }
        let x = v.at(r)->0;
        assert((a + b).contains(x) <==> a.contains(x) || b.contains(x));
        assert((a + b + c).contains(x) <==> (a + b).contains(x) || c.contains(x));
        assert((a + b + c + d).contains(x) <==> (a + b + c).contains(x) || d.contains(x));
    }
}

proof fn lemma_put_other(
    v: FilesView,
    regional: Option<Regional>,
    file: DiscoveredFile,
    other: Option<Regional>,
)
    requires
        v.wf(),
        FilesView::has_place(regional),
        FilesView::has_place(other),
    ensures
        v.put(regional, file).at(regional) == Some(file),
        other != regional ==> v.put(regional, file).at(other) == v.at(other),
{
    match (regional, other) {
        (Some(Regional::Region(a)), Some(Regional::Region(b))) => {
            assert(a != b ==> a.number() != b.number());
        },
        (Some(Regional::Language(a)), Some(Regional::Language(b))) => {
            assert(a != b ==> a.number() != b.number());
        },
        (Some(Regional::Locale(a)), Some(Regional::Locale(b))) => {
            assert(a != b ==> a.number() != b.number());
        },
        _ => {},
    }
}

/// A file that was put at a place is there, all other places are as before, and the file is preferred
/// wherever its place is.
pub proof fn law_files_put(
    v: FilesView,
    regional: Option<Regional>,
    file: DiscoveredFile,
    other: Option<Regional>,
    prefs: LocalePreferences,
)
    requires
        v.wf(),
        FilesView::has_place(regional),
        FilesView::has_place(other),
    ensures
        v.put(regional, file).wf(),
        v.put(regional, file).at(regional) == Some(file),
        other != regional ==> v.put(regional, file).at(other) == v.at(other),
        regional == Some(Regional::Locale(prefs.locale)) ==> v.put(regional, file).preferred(prefs)
            == Some(file),
        v.preferred(prefs) is Some ==> v.put(regional, file).preferred(prefs) is Some,
        v.placed() && file.regional == regional ==> v.put(regional, file).placed(),
{
    let w = v.put(regional, file);
    if v.placed() && file.regional == regional {
        assert forall|r: Option<Regional>| #[trigger] FilesView::has_place(r) implies (w.at(r) matches Some(
            f,
        ) ==> f.regional == r) by {
            lemma_put_other(v, regional, file, r);
        }
    }
    lemma_put_other(v, regional, file, other);
}

/// The files that replace one path.
pub struct DiscoveredFiles {
    base_file: Option<DiscoveredFile>,
    regions: Vec<Option<DiscoveredFile>>,
    languages: Vec<Option<DiscoveredFile>>,
    locales: Vec<Option<DiscoveredFile>>,
}

impl View for DiscoveredFiles {
    type V = FilesView;

    closed spec fn view(&self) -> FilesView {
        FilesView {
            base: self.base_file,
            regions: self.regions@,
            languages: self.languages@,
            locales: self.locales@,
        }
    }
}

fn no_files(n: usize) -> (r: Vec<Option<DiscoveredFile>>)
    ensures
        r@ == Seq::new(n as nat, |i: int| None::<DiscoveredFile>),
{
    let mut r: Vec<Option<DiscoveredFile>> = Vec::new();
    let mut i: usize = 0;
    while i < n
        invariant
            i <= n,
            r@ =~= Seq::new(i as nat, |i: int| None::<DiscoveredFile>),
        decreases n - i,
    {
        r.push(None);
        i += 1;
    }
    r
}

fn push_somes(s: &Vec<Option<DiscoveredFile>>, out: &mut Vec<DiscoveredFile>)
    ensures
        final(out)@ == old(out)@ + somes(s@),
{
    let mut i: usize = 0;
    proof {
        assert(s@.take(0) =~= Seq::empty());
        assert(out@ =~= old(out)@ + somes(s@.take(0)));
    }
    while i < s.len()
        invariant
            i <= s@.len(),
            out@ == old(out)@ + somes(s@.take(i as int)),
        decreases s@.len() - i,
    {
        let ghost before = out@;
        proof {
            assert(s@.take(i + 1).drop_last() =~= s@.take(i as int));
            assert(s@.take(i + 1).last() == s@[i as int]);
        }
        if let Some(file) = s[i] {
            out.push(file);
            proof {
                assert(out@ =~= old(out)@ + somes(s@.take(i + 1)));
            }
        }
        i += 1;
    }
    proof {
        assert(s@.take(i as int) =~= s@);
    }
}

impl Default for DiscoveredFiles {
    fn default() -> (r: DiscoveredFiles)
        ensures
            r@ == FilesView::empty(),
            r@.wf(),
    {
        DiscoveredFiles {
            base_file: None,
            regions: no_files(REGION_COUNT),
            languages: no_files(LANGUAGE_COUNT),
            locales: no_files(LOCALE_COUNT),
        }
    }
}

impl DiscoveredFiles {
    /// Puts a file at a place and returns the file that was there.
    pub fn set_by_regional(&mut self, file: DiscoveredFile, regional: Option<Regional>) -> (r: Option<
        DiscoveredFile,
    >)
        requires
            old(self)@.wf(),
            FilesView::has_place(regional),
        ensures
            r == old(self)@.at(regional),
            final(self)@ == old(self)@.put(regional, file),
            final(self)@.wf(),
    {
        match regional {
            None => {
                let previous = self.base_file;
                self.base_file = Some(file);
                previous
            },
            Some(Regional::Region(region)) => {
                let i: usize = region.index() as usize;
                let previous = self.regions[i];
                self.regions.set(i, Some(file));
                previous
            },
            Some(Regional::Language(language)) => {
                let i: usize = language.index() as usize;
                let previous = self.languages[i];
                self.languages.set(i, Some(file));
                previous
            },
            Some(Regional::Locale(locale)) => {
                let i: usize = locale.index() as usize;
                let previous = self.locales[i];
                self.locales.set(i, Some(file));
                previous
            },
        }
    }

    /// All files: those for locales, for languages, for regions, and the one for all.
    pub fn iter_priority_ordered(&self) -> (r: Vec<DiscoveredFile>)
        ensures
            r@ == self@.ordered(),
    {
        let mut r: Vec<DiscoveredFile> = Vec::new();
        push_somes(&self.locales, &mut r);
        push_somes(&self.languages, &mut r);
        push_somes(&self.regions, &mut r);
        let ghost front = r@;
        if let Some(file) = self.base_file {
            r.push(file);
        }
        proof {
            let one = seq![self.base_file];
            assert(one.drop_last() =~= Seq::empty());
            assert(somes(one.drop_last()) =~= Seq::empty());
            assert(one.last() == self.base_file);
            assert(r@ =~= front + somes(one));
            assert(r@ =~= self@.ordered());
        }
        r
    }

    /// The file to load under the preferences.
    pub fn with_preference(&self, preference: LocalePreferences) -> (r: Option<DiscoveredFile>)
        requires
            self@.wf(),
        ensures
            r == self@.preferred(preference),
    {
        if let Some(file) = self.locales[preference.locale.index() as usize] {
            return Some(file);
        }
        let language: usize = preference.language.index() as usize;
        if language < LANGUAGE_COUNT {
            if let Some(file) = self.languages[language] {
                return Some(file);
            }
        }
        if let Some(file) = self.regions[preference.region.index() as usize] {
            return Some(file);
        }
        self.base_file
    }
}


/// What a [`FileSystem`] holds.
pub struct FileSystemView {
    pub roots: Seq<Seq<char>>,
    pub files: Map<u64, FilesView>,
    pub checksum: u32,
    pub new_files: Seq<NewFile>,
}

impl FileSystemView {
    pub open spec fn empty() -> FileSystemView {
        FileSystemView {
            roots: Seq::empty(),
            files: Map::empty(),
            checksum: 0,
            new_files: Seq::empty(),
        }
    }

    pub open spec fn wf(self) -> bool {
        forall|k: u64| #[trigger] self.files.contains_key(k) ==> self.files[k].wf()
    }

    /// The files that replace a path.
    pub open spec fn files_of(self, k: u64) -> FilesView {
        if self.files.contains_key(k) {
            self.files[k]
        } else {
            FilesView::empty()
        }
    }

    /// The file to load for a path under the preferences.
    pub open spec fn file_for(self, hash: Hash40, prefs: LocalePreferences) -> Option<DiscoveredFile> {
        if self.files.contains_key(hash.0) {
            self.files[hash.0].preferred(prefs)
        } else {
            None
        }
    }
}

/// Why a file cannot be taken up.
#[derive(Copy, Clone, Debug, PartialEq, Eq, Structural)]
pub enum DiscoverError {
    /// The path is too long for a hash.
    PathTooLong,
    /// There is something behind the file name that is no code.
    InvalidSuffix,
    /// There is no space for the strings of the path.
    SlabFull,
    /// A file that the archive does not have is for one region, language or locale only.
    NewFileIsRegional,
    /// A file that the archive does not have has no folder.
    NoParent,
    /// There is no place for files in the language.
    NoPlace,
    /// Two files replace the same path.
    Duplicate,
}

/// All that discovering files changes.
pub struct Discovering {
    pub files: FileSystemView,
    pub slab: SlabView,
    pub cache: CacheView,
}

/// The state after a file was taken up, or why it cannot be. A path that is new to the slab is one that
/// the archive does not have.
pub open spec fn discovered(
    s: Discovering,
    root_idx: u32,
    path: Seq<char>,
    size: u32,
    file: LoadableFile,
) -> Result<Discovering, DiscoverError> {
    let checksum = crc_continued(
        crc_continued(s.files.checksum, encode_utf8(path)),
        le_bytes(size),
    );
    match detect(path) {
        None => Err(DiscoverError::InvalidSuffix),
        Some((target, regional)) => match cached(s.slab, s.cache, target) {
            None => Err(DiscoverError::SlabFull),
            Some((slab, cache, result)) => if result.is_new && regional is Some {
                Err(DiscoverError::NewFileIsRegional)
            } else if result.is_new && FilePath::of_path(path) is None {
                Err(DiscoverError::NoParent)
            } else if !FilesView::has_place(regional) {
                Err(DiscoverError::NoPlace)
            } else {
                let k = hash40_str(target).0;
                let files = s.files.files_of(k);
                if files.at(regional) is Some {
                    Err(DiscoverError::Duplicate)
                } else {
                    Ok(
                        Discovering {
                            files: FileSystemView {
                                files: s.files.files.insert(
                                    k,
                                    files.put(
                                        regional,
                                        DiscoveredFile { root_idx, size, regional, file },
                                    ),
                                ),
                                checksum,
                                new_files: if result.is_new {
                                    s.files.new_files.push(
                                        NewFile { filepath: FilePath::of_path(path)->0, size },
                                    )
                                } else {
                                    s.files.new_files
                                },
                                ..s.files
                            },
                            slab,
                            cache,
                        },
                    )
                }
            },
        },
    }
}

/// The state after a file in a folder was taken up, or why it cannot be.
pub open spec fn discovered_on_disk(s: Discovering, root_idx: u32, path: Seq<char>, size: u32) -> Result<
    Discovering,
    DiscoverError,
> {
    if encode_utf8(path).len() >= 0x100 {
        Err(DiscoverError::PathTooLong)
    } else {
        discovered(s, root_idx, path, size, LoadableFile::UncompressedOnDisk)
    }
}

/// Is a file of a zip file left out, because it is a patch for another file?
pub open spec fn is_left_out(extension: Option<Seq<char>>) -> bool {
    extension == Some("prcxml"@) || extension == Some("xmsbt"@) || extension == Some("prcx"@)
}

/// The state after a file in a zip file was taken up, or why it cannot be.
pub open spec fn discovered_in_zip(
    s: Discovering,
    root_idx: u32,
    path: Seq<char>,
    compressed_size: u32,
    decompressed_size: u32,
    compressed_start: u32,
) -> Result<Discovering, DiscoverError> {
    if is_left_out(extension_in(path_file_name(path))) {
        Ok(s)
    } else {
        discovered(
            s,
            root_idx,
            path,
            decompressed_size,
            LoadableFile::ZipFile { compressed_size, decompressed_size, compressed_start },
        )
    }
}

/// What to do with an entry of the folder that mods are in.
#[derive(Copy, Clone, Debug, PartialEq, Eq, Structural)]
pub enum RootKind {
    /// Look for files below it.
    Folder,
    /// Look for files in it.
    Zip,
    Ignored,
}

/// What an entry is. Those with a dot in front are ignored.
pub open spec fn root_kind(
    name: Seq<char>,
    extension: Option<Seq<char>>,
    is_dir: bool,
    is_file: bool,
) -> RootKind {
    if name.len() > 0 && name[0] == '.' {
        RootKind::Ignored
    } else if is_dir {
        RootKind::Folder
    } else if is_file && extension == Some("zip"@) {
        RootKind::Zip
    } else {
        RootKind::Ignored
    }
}

/// Tells what to do with an entry of the folder that mods are in.
pub fn classify_root(name: &str, path: &str, is_dir: bool, is_file: bool) -> (r: RootKind)
    ensures
        r == root_kind(name@, extension_in(path_file_name(path@)), is_dir, is_file),
{
    if name.unicode_len() > 0 && name.get_char(0) == '.' {
        return RootKind::Ignored;
    }
    if is_dir {
        return RootKind::Folder;
    }
    if is_file {
        if let Some(e) = extension(path) {
            if str_eq(e.as_str(), "zip") {
                return RootKind::Zip;
            }
        }
    }
    RootKind::Ignored
}

/// The files that mods bring along.
pub struct FileSystem {
    roots: Vec<String>,
    files: BTreeMap<u64, DiscoveredFiles>,
    checksum: u32,
    new_files: Vec<NewFile>,
}

impl View for FileSystem {
    type V = FileSystemView;

    closed spec fn view(&self) -> FileSystemView {
        FileSystemView {
            roots: self.roots@.map_values(|r: String| r@),
            files: self.files@.map_values(|f: DiscoveredFiles| f@),
            checksum: self.checksum,
            new_files: self.new_files@,
        }
    }
}

impl FileSystem {
    pub open spec fn wf(&self) -> bool {
        self@.wf()
    }

    pub fn new() -> (r: FileSystem)
        ensures
            r@ == FileSystemView::empty(),
            r.wf(),
    {
        let r = FileSystem {
            roots: Vec::new(),
            files: BTreeMap::new(),
            checksum: 0,
            new_files: Vec::new(),
        };
        proof {
            assert(r@.roots =~= Seq::empty());
            assert(r@.files =~= Map::empty());
        }
        r
    }

    pub fn checksum(&self) -> (r: u32)
        ensures
            r == self@.checksum,
    {
        self.checksum
    }

    /// The path of a root.
    pub fn root(&self, root_idx: u32) -> (r: Option<&str>)
        ensures
            match r {
                Some(p) => root_idx < self@.roots.len() && p@ == self@.roots[root_idx as int],
                None => root_idx >= self@.roots.len(),
            },
    {
        if (root_idx as usize) < self.roots.len() {
            Some(self.roots[root_idx as usize].as_str())
        } else {
            None
        }
    }

    /// Takes up a folder as a root and returns its index.
    pub fn add_folder(&mut self, path: &str) -> (r: Option<u32>)
        ensures
            match r {
                Some(i) => i == old(self)@.roots.len() && final(self)@ == (FileSystemView {
                    roots: old(self)@.roots.push(path@),
                    checksum: crc_continued(old(self)@.checksum, encode_utf8(path@)),
                    ..old(self)@
                }),
                None => old(self)@.roots.len() > u32::MAX && final(self)@ == old(self)@,
            },
    {
        if self.roots.len() > 0xFFFF_FFFF {
            return None;
        }
        let i: u32 = self.roots.len() as u32;
        self.checksum = continue_crc(self.checksum, path.as_bytes());
        self.roots.push(String::from_str(path));
        proof {
            assert(self@.roots =~= old(self)@.roots.push(path@));
        }
        Some(i)
    }

    /// Takes up a zip file as a root and returns its index.
    pub fn add_zip(&mut self, path: &str) -> (r: Option<u32>)
        ensures
            match r {
                Some(i) => i == old(self)@.roots.len() && final(self)@ == (FileSystemView {
                    roots: old(self)@.roots.push(path@),
                    ..old(self)@
                }),
                None => old(self)@.roots.len() > u32::MAX && final(self)@ == old(self)@,
            },
    {
        if self.roots.len() > 0xFFFF_FFFF {
            return None;
        }
        let i: u32 = self.roots.len() as u32;
        self.roots.push(String::from_str(path));
        proof {
            assert(self@.roots =~= old(self)@.roots.push(path@));
        }
        Some(i)
    }

    fn put(&mut self, k: u64, file: DiscoveredFile, regional: Option<Regional>) -> (r: bool)
        requires
            old(self).wf(),
            FilesView::has_place(regional),
        ensures
            r == (old(self)@.files_of(k).at(regional) is None),
            final(self)@ == (FileSystemView {
                files: old(self)@.files.insert(k, old(self)@.files_of(k).put(regional, file)),
                ..old(self)@
            }),
            final(self).wf(),
    {
        let mut files = match self.files.remove(&k) {
            Some(files) => files,
            None => DiscoveredFiles::default(),
        };
        proof {
            assert(files@ == old(self)@.files_of(k));
            if old(self)@.files.contains_key(k) {
                assert(old(self)@.files[k].wf());
            }
        }
        let previous = files.set_by_regional(file, regional);
        let ghost v = files@;
        let _none = self.files.insert(k, files);
        proof {
            assert(self@.files =~= old(self)@.files.insert(k, v));
        }
        previous.is_none()
    }

    /// Takes up a file.
    fn discover(
        &mut self,
        slab: &mut HashMemorySlab,
        cache: &mut InternerCache,
        root_idx: u32,
        path: &str,
        size: u32,
        file: LoadableFile,
    ) -> (r: Result<(), DiscoverError>)
        requires
            old(self).wf(),
            old(slab).wf(),
            old(slab)@.cache_ok(old(cache)@),
        ensures
            match (
                r,
                discovered(
                    Discovering { files: old(self)@, slab: old(slab)@, cache: old(cache)@ },
                    root_idx,
                    path@,
                    size,
                    file,
                ),
            ) {
                (Ok(()), Ok(t)) => t == (Discovering {
                    files: final(self)@,
                    slab: final(slab)@,
                    cache: final(cache)@,
                }),
                (Err(a), Err(b)) => a == b,
                _ => false,
            },
            r is Ok ==> final(self).wf() && final(slab).wf() && final(slab)@.cache_ok(final(cache)@),
    {
        let crc: u32 = continue_crc(self.checksum, path.as_bytes());
        let mut size_bytes: Vec<u8> = Vec::new();
        size_bytes.push(le_byte(size, 0));
        size_bytes.push(le_byte(size, 1));
        size_bytes.push(le_byte(size, 2));
        size_bytes.push(le_byte(size, 3));
        proof {
            crate::words::lemma_le_bytes(size);
            assert(size_bytes@ =~= le_bytes(size));
        }
        self.checksum = continue_crc(crc, &size_bytes);
        let Some((target, regional)) = detect_regional(path) else {
            return Err(DiscoverError::InvalidSuffix);
        };
        let Some(result) = cache_path(slab, cache, target.as_str()) else {
            return Err(DiscoverError::SlabFull);
        };
        if result.is_new {
            if regional.is_some() {
                return Err(DiscoverError::NewFileIsRegional);
            }
            let Some(filepath) = FilePath::from_utf8_path(path) else {
                return Err(DiscoverError::NoParent);
            };
            self.new_files.push(NewFile { filepath, size });
        }
        if let Some(Regional::Language(language)) = regional {
            if language.index() as usize >= LANGUAGE_COUNT {
                return Err(DiscoverError::NoPlace);
            }
        }
        let hash = Hash40::const_new(target.as_str());
        if self.put(hash.raw(), DiscoveredFile { root_idx, size, regional, file }, regional) {
            Ok(())
        } else {
            Err(DiscoverError::Duplicate)
        }
    }

    /// Takes up a file that was found below a folder. The path is that below the root.
    pub fn discover_on_disk(
        &mut self,
        slab: &mut HashMemorySlab,
        cache: &mut InternerCache,
        root_idx: u32,
        path: &str,
        size: u32,
    ) -> (r: Result<(), DiscoverError>)
        requires
            old(self).wf(),
            old(slab).wf(),
            old(slab)@.cache_ok(old(cache)@),
        ensures
            match (
                r,
                discovered_on_disk(
                    Discovering { files: old(self)@, slab: old(slab)@, cache: old(cache)@ },
                    root_idx,
                    path@,
                    size,
                ),
            ) {
                (Ok(()), Ok(t)) => t == (Discovering {
                    files: final(self)@,
                    slab: final(slab)@,
                    cache: final(cache)@,
                }),
                (Err(a), Err(b)) => a == b,
                _ => false,
            },
            r is Ok ==> final(self).wf() && final(slab).wf() && final(slab)@.cache_ok(final(cache)@),
    {
        if path.as_bytes().len() >= 0x100 {
            return Err(DiscoverError::PathTooLong);
        }
        self.discover(slab, cache, root_idx, path, size, LoadableFile::UncompressedOnDisk)
    }

    /// Takes up a file that was found in a zip file, unless it is one that is left out.
    pub fn discover_in_zip(
        &mut self,
        slab: &mut HashMemorySlab,
        cache: &mut InternerCache,
        root_idx: u32,
        path: &str,
        compressed_size: u32,
        decompressed_size: u32,
        compressed_start: u32,
    ) -> (r: Result<(), DiscoverError>)
        requires
            old(self).wf(),
            old(slab).wf(),
            old(slab)@.cache_ok(old(cache)@),
        ensures
            match (
                r,
                discovered_in_zip(
                    Discovering { files: old(self)@, slab: old(slab)@, cache: old(cache)@ },
                    root_idx,
                    path@,
                    compressed_size,
                    decompressed_size,
                    compressed_start,
                ),
            ) {
                (Ok(()), Ok(t)) => t == (Discovering {
                    files: final(self)@,
                    slab: final(slab)@,
                    cache: final(cache)@,
                }),
                (Err(a), Err(b)) => a == b,
                _ => false,
            },
            r is Ok ==> final(self).wf() && final(slab).wf() && final(slab)@.cache_ok(final(cache)@),
    {
        if let Some(e) = extension(path) {
            if str_eq(e.as_str(), "prcxml") || str_eq(e.as_str(), "xmsbt") || str_eq(
                e.as_str(),
                "prcx",
            ) {
                return Ok(());
            }
        }
        self.discover(
            slab,
            cache,
            root_idx,
            path,
            decompressed_size,
            LoadableFile::ZipFile { compressed_size, decompressed_size, compressed_start },
        )
    }

    /// The files that the archive does not have.
    pub fn new_files(&self) -> (r: &Vec<NewFile>)
        ensures
            r@ == self@.new_files,
    {
        &self.new_files
    }

    /// The file to load for a path under the preferences.
    pub fn get_file(&self, hash: Hash40, preference: LocalePreferences) -> (r: Option<DiscoveredFile>)
        requires
            self.wf(),
        ensures
            r == self@.file_for(hash, preference),
    {
        match self.files.get(&hash.raw()) {
            Some(files) => {
                proof {
                    assert(self@.files.contains_key(hash.0));
                    assert(self@.files[hash.0] == files@);
                }
                files.with_preference(preference)
            },
            None => None,
        }
    }

    /// All paths that a file replaces under the preferences, in the order of their hashes, and the
    /// files.
    pub fn files(&self, preference: LocalePreferences) -> (r: Vec<(Hash40, DiscoveredFile)>)
        requires
            self.wf(),
        ensures
            r@ == chosen(self@, key_listing(self@.files.dom()), preference),
            forall|i: int, j: int| 0 <= i < j < r@.len() ==> r@[i].0.0 < r@[j].0.0,
            forall|i: int|
                0 <= i < r@.len() ==> self@.file_for((#[trigger] r@[i]).0, preference) == Some(r@[i].1),
            forall|k: u64| #[trigger]
                self@.file_for(Hash40(k), preference) is Some ==> exists|i: int|
                    0 <= i < r@.len() && (#[trigger] r@[i]).0 == Hash40(k),
    {
        let keys = list_keys(&self.files);
        let mut r: Vec<(Hash40, DiscoveredFile)> = Vec::new();
        let mut i: usize = 0;
        proof {
            assert(keys@.take(0) =~= Seq::empty());
        }
        while i < keys.len()
            invariant
                self.wf(),
                i <= keys@.len(),
                r@ == chosen(self@, keys@.take(i as int), preference),
            decreases keys@.len() - i,
        {
            let hash = Hash40::from_raw(keys[i]);
            proof {
                assert(keys@.take(i + 1).drop_last() =~= keys@.take(i as int));
            }
            if let Some(file) = self.get_file(hash, preference) {
                r.push((hash, file));
            }
            i += 1;
        }
        proof {
            assert(keys@.take(i as int) =~= keys@);
            assert(self@.files.dom() =~= self.files@.dom());
            lemma_chosen(self@, keys@, preference);
            assert forall|k: u64| #[trigger]
                self@.file_for(Hash40(k), preference) is Some implies exists|i: int|
                0 <= i < r@.len() && (#[trigger] r@[i]).0 == Hash40(k) by {
                assert(self.files@.dom().contains(k));
                assert(keys@.contains(k));
                let b = choose|b: int| 0 <= b < keys@.len() && keys@[b] == k;
                assert(self@.file_for(Hash40(keys@[b]), preference) is Some);
            }
        }
        r
    }
}

/// All keys of a map, in increasing order.
pub open spec fn is_key_listing(keys: Set<u64>, s: Seq<u64>) -> bool {
    &&& forall|i: int, j: int| 0 <= i < j < s.len() ==> s[i] < s[j]
    &&& forall|k: u64| #[trigger] keys.contains(k) <==> s.contains(k)
}

/// A set of keys has one listing only.
pub proof fn lemma_key_listing_unique(keys: Set<u64>, a: Seq<u64>, b: Seq<u64>)
    requires
        is_key_listing(keys, a),
        is_key_listing(keys, b),
    ensures
        a == b,
    decreases a.len(),
{
    if a.len() == 0 {
        if b.len() > 0 {
            assert(b.contains(b[0]));
            assert(keys.contains(b[0]));
            assert(a.contains(b[0]));
        }
        assert(a =~= b);
    } else {
        assert(a.contains(a.last()));
        assert(keys.contains(a.last()));
        assert(b.contains(a.last()));
        assert(b.contains(b.last()));
        assert(keys.contains(b.last()));
        assert(a.contains(b.last()));
        let i = choose|i: int| 0 <= i < b.len() && b[i] == a.last();
        let j = choose|j: int| 0 <= j < a.len() && a[j] == b.last();
        assert(a.last() == b.last());
        let k = a.last();
        let rest = keys.remove(k);
        assert forall|x: u64| #[trigger] rest.contains(x) <==> a.drop_last().contains(x) by {
            if rest.contains(x) {
                assert(a.contains(x));
                let i = choose|i: int| 0 <= i < a.len() && a[i] == x;
                assert(a.drop_last()[i] == x);
            }
            if a.drop_last().contains(x) {
                let i = choose|i: int| 0 <= i < a.len() - 1 && a.drop_last()[i] == x;
                assert(a[i] == x && a.contains(x));
            }
        }
        assert forall|x: u64| #[trigger] rest.contains(x) <==> b.drop_last().contains(x) by {
            if rest.contains(x) {
                assert(b.contains(x));
                let i = choose|i: int| 0 <= i < b.len() && b[i] == x;
                assert(b.drop_last()[i] == x);
            }
            if b.drop_last().contains(x) {
                let i = choose|i: int| 0 <= i < b.len() - 1 && b.drop_last()[i] == x;
                assert(b[i] == x && b.contains(x));
            }
        }
        lemma_key_listing_unique(rest, a.drop_last(), b.drop_last());
        assert(a =~= a.drop_last().push(k));
        assert(b =~= b.drop_last().push(k));
    }
}

/// All keys of a map, in increasing order.
pub open spec fn key_listing(keys: Set<u64>) -> Seq<u64> {
    choose|s: Seq<u64>| is_key_listing(keys, s)
}

/// A finite set of keys has a listing.
pub proof fn law_key_listing(keys: Set<u64>)
    requires
        keys.finite(),
    ensures
        is_key_listing(keys, key_listing(keys)),
{
    lemma_some_key_listing(keys);
}

proof fn lemma_some_key_listing(keys: Set<u64>)
    requires
        keys.finite(),
    ensures
        exists|s: Seq<u64>| is_key_listing(keys, s),
    decreases keys.len(),
{
    if keys.len() == 0 {
        keys.lemma_len0_is_empty();
        let s = Seq::<u64>::empty();
        assert(is_key_listing(keys, s));
    } else {
        let leq = |a: u64, b: u64| a <= b;
        let k = keys.find_unique_maximal(leq);
        keys.find_unique_maximal_ensures(leq);
        let rest = keys.remove(k);
        assert forall|j: u64| keys.contains(j) implies j <= k by {
            assert(leq(k, j) ==> leq(j, k));
        }
        lemma_some_key_listing(rest);
        let t = choose|s: Seq<u64>| is_key_listing(rest, s);
        let s = t.push(k);
        assert forall|i: int, j: int| 0 <= i < j < s.len() implies s[i] < s[j] by {
            assert(t.contains(t[i]));
            assert(rest.contains(t[i]));
        }
        assert forall|x: u64| #[trigger] keys.contains(x) <==> s.contains(x) by {
            if keys.contains(x) {
                if x == k {
                    assert(s[t.len() as int] == x);
                } else {
                    assert(rest.contains(x));
                    assert(t.contains(x));
                    let i = choose|i: int| 0 <= i < t.len() && t[i] == x;
                    assert(s[i] == x);
                }
            }
            if s.contains(x) {
                let i = choose|i: int| 0 <= i < s.len() && s[i] == x;
                if i < t.len() {
                    assert(t.contains(t[i]));
                    assert(rest.contains(x));
                }
            }
        }
        assert(is_key_listing(keys, s));
    }
}

/// Lists the keys of a map in increasing order.
pub(crate) fn list_keys(files: &BTreeMap<u64, DiscoveredFiles>) -> (r: Vec<u64>)
    ensures
        is_key_listing(files@.dom(), r@),
        r@ == key_listing(files@.dom()),
{
    let mut r: Vec<u64> = Vec::new();
    let entries = files.iter();
    let ghost m = files@;
    proof {
        let v = entries.remaining();
        let keys = v.map_values(|kv: (&u64, &DiscoveredFiles)| *kv.0);
        assert(vstd::laws_cmp::obeys_cmp::<u64>());
        assert(vstd::std_specs::btree::increasing_seq(keys));
        assert forall|i: int, j: int| 0 <= i < j < v.len() implies *v[i].0 < *v[j].0 by {
            assert(vstd::std_specs::cmp::OrdSpec::cmp_spec(&keys[i], &keys[j]) is Less);
            assert(keys[i] == *v[i].0 && keys[j] == *v[j].0);
        }
        assert forall|k: u64| #[trigger] m.contains_key(k) implies exists|i: int|
            0 <= i < v.len() && *(#[trigger] v[i]).0 == k by {
            assert(v.contains((&k, &m[k])));
            let i = choose|i: int| 0 <= i < v.len() && v[i] == (&k, &m[k]);
            assert(*v[i].0 == k);
        }
    }
    for kv in it: entries
        invariant
            m == files@,
            r@.len() == it.index(),
            forall|i: int|
                #![trigger it.seq()[i]]
                #![trigger r@[i]]
                0 <= i < r@.len() ==> r@[i] == *it.seq()[i].0,
            forall|i: int, j: int| 0 <= i < j < it.seq().len() ==> *it.seq()[i].0 < *it.seq()[j].0,
            forall|i: int| 0 <= i < it.seq().len() ==> m.contains_key(*(#[trigger] it.seq()[i]).0),
            forall|k: u64| #[trigger]
                m.contains_key(k) ==> exists|i: int|
                    0 <= i < it.seq().len() && *(#[trigger] it.seq()[i]).0 == k,
    {
        r.push(*kv.0);
    }
    proof {
        assert forall|k: u64| #[trigger] m.dom().contains(k) <==> r@.contains(k) by {
            if m.dom().contains(k) {
                assert(m.contains_key(k));
                let i = choose|i: int| 0 <= i < r@.len() && r@[i] == k;
                assert(r@[i] == k);
            }
            if r@.contains(k) {
                let i = choose|i: int| 0 <= i < r@.len() && r@[i] == k;
                assert(m.contains_key(r@[i]));
            }
        }
        assert(is_key_listing(m.dom(), r@));
        lemma_key_listing_unique(m.dom(), r@, key_listing(m.dom()));
    }
    r
}

/// Those of the paths that a file replaces under the preferences, and the files.
pub open spec fn chosen(v: FileSystemView, keys: Seq<u64>, prefs: LocalePreferences) -> Seq<
    (Hash40, DiscoveredFile),
>
    decreases keys.len(),
{
    if keys.len() == 0 {
        Seq::empty()
    } else {
        let front = chosen(v, keys.drop_last(), prefs);
        match v.file_for(Hash40(keys.last()), prefs) {
            Some(file) => front.push((Hash40(keys.last()), file)),
            None => front,
        }
    }
}

pub(crate) proof fn lemma_chosen(v: FileSystemView, keys: Seq<u64>, prefs: LocalePreferences)
    requires
        forall|i: int, j: int| 0 <= i < j < keys.len() ==> keys[i] < keys[j],
    ensures
        ({
            let r = chosen(v, keys, prefs);
            &&& forall|i: int, j: int| 0 <= i < j < r.len() ==> r[i].0.0 < r[j].0.0
            &&& forall|i: int|
                0 <= i < r.len() ==> v.file_for((#[trigger] r[i]).0, prefs) == Some(r[i].1)
            &&& forall|i: int| 0 <= i < r.len() ==> keys.len() > 0 && (#[trigger] r[i]).0.0 <= keys.last()
            &&& forall|b: int|
                0 <= b < keys.len() && v.file_for(Hash40(#[trigger] keys[b]), prefs) is Some
                    ==> exists|i: int| 0 <= i < r.len() && (#[trigger] r[i]).0 == Hash40(keys[b])
        }),
    decreases keys.len(),
{
    if keys.len() > 0 {
        let front_keys = keys.drop_last();
        let front = chosen(v, front_keys, prefs);
        lemma_chosen(v, front_keys, prefs);
        let r = chosen(v, keys, prefs);
        let k = keys.last();
        assert forall|i: int| 0 <= i < front.len() implies (#[trigger] front[i]).0.0 < k by {
            assert(front_keys.last() < k);
        }
        assert forall|b: int|
            0 <= b < keys.len() && v.file_for(
                Hash40(#[trigger] keys[b]),
                prefs,
            ) is Some implies exists|i: int|
            0 <= i < r.len() && (#[trigger] r[i]).0 == Hash40(keys[b]) by {
            if b < keys.len() - 1 {
                assert(front_keys[b] == keys[b]);
                let i = choose|i: int|
                    0 <= i < front.len() && (#[trigger] front[i]).0 == Hash40(front_keys[b]);
                assert(r[i].0 == Hash40(keys[b]));
            } else {
                assert(r[front.len() as int].0 == Hash40(keys[b]));
            }
        }
    }
}

} // verus!
