//! Files for one region, language or locale only.
//!
//! Such a file is named like the file that it replaces, with a `+` and a code behind the stem of the
//! name, as in `model+us_en.numdlb`.

use crate::hash_interner::{
    intern_path, CacheView, HashMemorySlab, InternPathResult, InternerCache, SlabView,
};
use crate::hash_list::intern_if;
use crate::locale::{
    law_language_code, law_locale_code, law_region_code, Language, Locale, Region,
};
use crate::paths::{
    extension, extension_in, file_name, file_stem, parent, path_file_name, path_parent, stem_in,
};
use vstd::prelude::*;
use vstd::string::StringExecFns;

verus! {

/// What a file is for.
#[derive(Copy, Clone, Debug, PartialEq, Eq, Structural)]
pub enum Regional {
    Region(Region),
    Language(Language),
    Locale(Locale),
}

impl Regional {
    pub open spec fn code(self) -> Seq<char> {
        match self {
            Regional::Region(region) => region.code(),
            Regional::Language(language) => language.code(),
            Regional::Locale(locale) => locale.code(),
        }
    }

    pub fn as_str(&self) -> (r: &'static str)
        ensures
            r@ == self.code(),
    {
        match self {
            Regional::Region(region) => region.as_str(),
            Regional::Language(language) => language.as_str(),
            Regional::Locale(locale) => locale.as_str(),
        }
    }
}

/// What a code stands for.
pub open spec fn regional_of(code: Seq<char>) -> Option<Regional> {
    if exists|l: Locale| l.code() == code {
        Some(Regional::Locale(choose|l: Locale| l.code() == code))
    } else if exists|l: Language| l.code() == code {
        Some(Regional::Language(choose|l: Language| l.code() == code))
    } else if exists|r: Region| r.code() == code {
        Some(Regional::Region(choose|r: Region| r.code() == code))
    } else {
        None
    }
}

/// The code that is written for a value is read as that value.
pub proof fn law_regional_code(x: Regional)
    ensures
        regional_of(x.code()) == Some(x),
{
    match x {
        Regional::Locale(l) => {
            let m = choose|m: Locale| m.code() == l.code();
            assert(m.code() == l.code());
            law_locale_code(l, m);
        },
        Regional::Language(l) => {
            lemma_code_lens();
            let m = choose|m: Language| m.code() == l.code();
            assert(m.code() == l.code());
            law_language_code(l, m);
            assert forall|k: Locale| k.code() != l.code() by {
                assert(k.code().len() == 5);
            }
        },
        Regional::Region(r) => {
            lemma_code_lens();
            let m = choose|m: Region| m.code() == r.code();
            assert(m.code() == r.code());
            law_region_code(r, m);
            assert forall|k: Locale| k.code() != r.code() by {
                assert(k.code().len() == 5);
            }
            assert forall|k: Language| k.code() != r.code() by {
                lemma_region_is_no_language(r, k);
            }
        },
    }
}

/// Locales have codes of five letters, languages and regions of two.
pub proof fn lemma_code_lens()
    ensures
        forall|l: Locale| (#[trigger] l.code()).len() == 5,
        forall|l: Language| (#[trigger] l.code()).len() == 2,
        forall|r: Region| (#[trigger] r.code()).len() == 2,
{
    reveal_strlit("ja_jp");
    reveal_strlit("us_en");
    reveal_strlit("us_fr");
    reveal_strlit("us_es");
    reveal_strlit("eu_en");
    reveal_strlit("eu_fr");
    reveal_strlit("eu_es");
    reveal_strlit("eu_de");
    reveal_strlit("eu_nl");
    reveal_strlit("eu_it");
    reveal_strlit("eu_ru");
    reveal_strlit("kr_ko");
    reveal_strlit("zh_cn");
    reveal_strlit("zh_tw");
    reveal_strlit("jp");
    reveal_strlit("en");
    reveal_strlit("fr");
    reveal_strlit("es");
    reveal_strlit("de");
    reveal_strlit("it");
    reveal_strlit("nl");
    reveal_strlit("ru");
    reveal_strlit("cn");
    reveal_strlit("tw");
    reveal_strlit("ko");
    reveal_strlit("ja");
    reveal_strlit("us");
    reveal_strlit("eu");
    reveal_strlit("kr");
    reveal_strlit("zh");
}

proof fn lemma_region_is_no_language(r: Region, l: Language)
    ensures
        r.code() != l.code(),
{
    reveal_strlit("jp");
    assert("jp"@ =~= seq!['j', 'p']);
    reveal_strlit("en");
    assert("en"@ =~= seq!['e', 'n']);
    reveal_strlit("fr");
    assert("fr"@ =~= seq!['f', 'r']);
    reveal_strlit("es");
    assert("es"@ =~= seq!['e', 's']);
    reveal_strlit("de");
    assert("de"@ =~= seq!['d', 'e']);
    reveal_strlit("it");
    assert("it"@ =~= seq!['i', 't']);
    reveal_strlit("nl");
    assert("nl"@ =~= seq!['n', 'l']);
    reveal_strlit("ru");
    assert("ru"@ =~= seq!['r', 'u']);
    reveal_strlit("cn");
    assert("cn"@ =~= seq!['c', 'n']);
    reveal_strlit("tw");
    assert("tw"@ =~= seq!['t', 'w']);
    reveal_strlit("ko");
    assert("ko"@ =~= seq!['k', 'o']);
    reveal_strlit("ja");
    assert("ja"@ =~= seq!['j', 'a']);
    reveal_strlit("us");
    assert("us"@ =~= seq!['u', 's']);
    reveal_strlit("eu");
    assert("eu"@ =~= seq!['e', 'u']);
    reveal_strlit("kr");
    assert("kr"@ =~= seq!['k', 'r']);
    reveal_strlit("zh");
    assert("zh"@ =~= seq!['z', 'h']);
    if r.code() == l.code() {
        assert(r.code()[0] == l.code()[0]);
        assert(r.code()[1] == l.code()[1]);
    }
}

/// What a code stands for, if it stands for anything.
pub fn parse_code(code: &str) -> (r: Option<Regional>)
    ensures
        r == regional_of(code@),
{
    if let Some(locale) = Locale::from_str(code) {
        proof {
            let m = choose|m: Locale| m.code() == code@;
            assert(locale.code() == code@);
            law_locale_code(locale, m);
        }
        return Some(Regional::Locale(locale));
    }
    if let Some(language) = Language::from_str(code) {
        proof {
            let m = choose|m: Language| m.code() == code@;
            assert(language.code() == code@);
            law_language_code(language, m);
        }
        return Some(Regional::Language(language));
    }
    if let Some(region) = Region::from_str(code) {
        proof {
            let m = choose|m: Region| m.code() == code@;
            assert(region.code() == code@);
            law_region_code(region, m);
        }
        return Some(Regional::Region(region));
    }
    None
}

/// Position of the first `+`, or the length if there is none.
pub open spec fn plus_position(s: Seq<char>) -> int
    decreases s.len(),
{
    if s.len() == 0 {
        0
    } else if s[0] == '+' {
        0
    } else {
        1 + plus_position(s.drop_first())
    }
}

proof fn lemma_plus_position(s: Seq<char>, p: int)
    requires
        0 <= p <= s.len(),
        p < s.len() ==> s[p] == '+',
        forall|i: int| 0 <= i < p ==> s[i] != '+',
    ensures
        plus_position(s) == p,
    decreases s.len(),
{
    if s.len() > 0 && s[0] != '+' {
        let t = s.drop_first();
        assert(p > 0);
        assert forall|i: int| 0 <= i < p - 1 implies t[i] != '+' by {
            assert(t[i] == s[i + 1]);
        }
        if p < s.len() {
            assert(t[p - 1] == s[p]);
        }
        lemma_plus_position(t, p - 1);
    }
}

/// What the stem of a file name says of what the file is for.
pub enum Suffix {
    /// Nothing.
    Missing,
    /// There is a code behind the name.
    Code(String, Regional),
    /// There is something behind the name that is no code.
    Invalid,
}

/// Takes the code off the stem of a file name.
pub fn split_suffix(stem: &str) -> (r: Suffix)
    ensures
        ({
            let p = plus_position(stem@);
            match r {
                Suffix::Missing => p == stem@.len(),
                Suffix::Code(name, regional) => p < stem@.len() && name@ == stem@.take(p)
                    && regional_of(stem@.skip(p + 1)) == Some(regional),
                Suffix::Invalid => p < stem@.len() && regional_of(stem@.skip(p + 1)) is None,
            }
        }),
{
    let n: usize = stem.unicode_len();
    let mut p: usize = 0;
    while p < n && stem.get_char(p) != '+'
        invariant
            n == stem@.len(),
            p <= n,
            forall|i: int| 0 <= i < p ==> stem@[i] != '+',
        decreases n - p,
    {
        p += 1;
    }
    proof {
        lemma_plus_position(stem@, p as int);
    }
    if p == n {
        return Suffix::Missing;
    }
    let code = stem.substring_char(p + 1, n);
    proof {
        assert(code@ =~= stem@.skip(p + 1));
    }
    match parse_code(code) {
        Some(regional) => {
            let name = stem.substring_char(0, p);
            proof {
                assert(name@ =~= stem@.take(p as int));
            }
            Suffix::Code(String::from_str(name), regional)
        },
        None => Suffix::Invalid,
    }
}

/// A folder with a slash at its end.
pub open spec fn slashed(folder: Seq<char>) -> Seq<char> {
    if folder.len() > 0 && folder.last() == '/' {
        folder
    } else {
        folder + "/"@
    }
}

/// The path of a file in the folder of `path`, with the same extension and another stem.
pub open spec fn with_stem(path: Seq<char>, stem: Seq<char>) -> Seq<char> {
    let folder = match path_parent(path) {
        Some(p) => slashed(p),
        None => Seq::empty(),
    };
    match extension_in(path_file_name(path)) {
        Some(e) => folder + stem + "."@ + e,
        None => folder + stem,
    }
}

/// The path that a file replaces, and what it is for. `None` if there is something behind its name that
/// is no code.
pub open spec fn detect(path: Seq<char>) -> Option<(Seq<char>, Option<Regional>)> {
    match stem_in(path_file_name(path)) {
        None => Some((path, None)),
        Some(stem) => {
            let p = plus_position(stem);
            if p == stem.len() {
                Some((path, None))
            } else {
                match regional_of(stem.skip(p + 1)) {
                    Some(regional) => Some((with_stem(path, stem.take(p)), Some(regional))),
                    None => None,
                }
            }
        },
    }
}

fn ends_with_slash(s: &str) -> (r: bool)
    ensures
        r == (s@.len() > 0 && s@.last() == '/'),
{
    let n: usize = s.unicode_len();
    n > 0 && s.get_char(n - 1) == '/'
}

/// Tells the path that a file replaces, and what it is for.
pub fn detect_regional(path: &str) -> (r: Option<(String, Option<Regional>)>)
    ensures
        match (r, detect(path@)) {
            (Some((a, x)), Some((b, y))) => a@ == b && x == y,
            (None, None) => true,
            _ => false,
        },
{
    let Some(stem) = file_stem(path) else {
        return Some((String::from_str(path), None));
    };
    match split_suffix(stem.as_str()) {
        Suffix::Missing => Some((String::from_str(path), None)),
        Suffix::Invalid => None,
        Suffix::Code(name, regional) => {
            let mut new_path = String::new();
            if let Some(folder) = parent(path) {
                new_path = folder;
                if !ends_with_slash(new_path.as_str()) {
                    new_path.append("/");
                }
            }
            new_path.append(name.as_str());
            if let Some(e) = extension(path) {
                new_path.append(".");
                new_path.append(e.as_str());
            }
            Some((new_path, Some(regional)))
        },
    }
}

/// The slab and the cache after the hashes of a discovered file were added: the file name, the
/// extension, and the path itself, and what adding the path came to.
pub open spec fn cached(v: SlabView, c: CacheView, path: Seq<char>) -> Option<
    (SlabView, CacheView, InternPathResult),
> {
    let name = path_file_name(path);
    match intern_if(intern_if(Some((v, c)), name), extension_in(name)) {
        Some((w, d)) => intern_path(w, d, path),
        None => None,
    }
}

/// Adds the hashes of a discovered file. `None` if a part of the slab is full.
pub fn cache_path(slab: &mut HashMemorySlab, cache: &mut InternerCache, path: &str) -> (r: Option<
    InternPathResult,
>)
    requires
        old(slab).wf(),
        old(slab)@.cache_ok(old(cache)@),
    ensures
        match (r, cached(old(slab)@, old(cache)@, path@)) {
            (Some(x), Some((v, c, y))) => x == y && final(slab)@ == v && final(cache)@ == c,
            (None, None) => true,
            _ => false,
        },
        r is Some ==> final(slab).wf() && final(slab)@.cache_ok(final(cache)@),
{
    if let Some(name) = file_name(path) {
        if slab.intern_path(cache, name.as_str()).is_none() {
            return None;
        }
    }
    if let Some(e) = extension(path) {
        if slab.intern_path(cache, e.as_str()).is_none() {
            return None;
        }
    }
    slab.intern_path(cache, path)
}

/// A file whose stem has no `+` is for all and replaces the path that it has. One with a `+` and a code behind
/// its name is for what the code stands for, and replaces the path without these. One with something else
/// behind the `+` is not taken up.
pub proof fn law_detect(path: Seq<char>, name: Seq<char>, code: Seq<char>, regional: Regional)
    requires
        !name.contains('+'),
    ensures
        stem_in(path_file_name(path)) == Some(name) ==> detect(path) == Some((path, None::<Regional>)),
        stem_in(path_file_name(path)) is None ==> detect(path) == Some((path, None::<Regional>)),
        stem_in(path_file_name(path)) == Some(name + seq!['+'] + regional.code()) ==> detect(path) == Some(
            (with_stem(path, name), Some(regional)),
        ),
        stem_in(path_file_name(path)) == Some(name + seq!['+'] + code) && (forall|r: Regional|
            #[trigger] r.code() != code) ==> detect(path) is None,
{
    lemma_no_plus(name, name.len() as int);
    law_regional_code(regional);
    lemma_split_plus(name, regional.code());
    lemma_split_plus(name, code);
    if forall|r: Regional| #[trigger] r.code() != code {
        if exists|l: Locale| l.code() == code {
            let l = choose|l: Locale| l.code() == code;
            assert(Regional::Locale(l).code() == code);
        }
        if exists|l: Language| l.code() == code {
            let l = choose|l: Language| l.code() == code;
            assert(Regional::Language(l).code() == code);
        }
        if exists|r: Region| r.code() == code {
            let r = choose|r: Region| r.code() == code;
            assert(Regional::Region(r).code() == code);
        }
    }
}

proof fn lemma_no_plus(s: Seq<char>, n: int)
    requires
        !s.contains('+'),
        n == s.len(),
    ensures
        plus_position(s) == n,
{
    assert forall|i: int| 0 <= i < n implies s[i] != '+' by {
        assert(s.contains(s[i]));
    }
    lemma_plus_position(s, n);
}

proof fn lemma_split_plus(name: Seq<char>, code: Seq<char>)
    requires
        !name.contains('+'),
    ensures
        ({
            let stem = name + seq!['+'] + code;
            &&& plus_position(stem) == name.len()
            &&& stem.take(name.len() as int) == name
            &&& stem.skip((name.len() + 1) as int) == code
        }),
{
    let stem = name + seq!['+'] + code;
    assert forall|i: int| 0 <= i < name.len() implies stem[i] != '+' by {
        assert(name.contains(name[i]));
    }
    lemma_plus_position(stem, name.len() as int);
    assert(stem.take(name.len() as int) =~= name);
    assert(stem.skip((name.len() + 1) as int) =~= code);
}

/// A path with another stem has the same folder and the same extension.
pub proof fn law_with_stem(path: Seq<char>, folder: Seq<char>, stem: Seq<char>, extension: Seq<char>)
    requires
        path_parent(path) == Some(folder),
        folder.len() > 0,
        folder.last() != '/',
        extension_in(path_file_name(path)) == Some(extension),
    ensures
        with_stem(path, stem) == folder + "/"@ + stem + "."@ + extension,
{
}

} // verus!
