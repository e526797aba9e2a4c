//! Giving the files of groups paths of their own.
//!
//! A group is loaded as a whole, so the data of its files cannot be replaced there. Each of its files
//! is moved to a copy of its path instead, and the path itself becomes free for replacements. Steps
//! are stated as functions from archive to archive, which have no result where the tables lead to
//! records that are not there, or where a table is full.

use crate::access::{at, count, has_run, holds, law_stored, with, Stored};
use crate::archive::{Archive, ArchiveView};
use crate::data::{
    FileDescriptor, FileGroup, FileInfo, FileLoadMethod, FilePackage, FilePath, INFO_IS_RESHARED,
};
use crate::hash40::spec_with;
use crate::locale::LocalePreferences;
use std::collections::{BTreeMap, BTreeSet};
use vstd::prelude::*;
use vstd::utf8::encode_utf8;

verus! {

broadcast use {vstd::laws_cmp::group_laws_cmp, vstd::std_specs::btree::group_btree_axioms};

/// Is there room for one more record?
pub open spec fn room<T: Stored>(v: ArchiveView) -> bool {
    count::<T>(v) < u32::MAX
}

/// The archive with another load method for the descriptor in force of info `i`.
pub open spec fn with_load_method(
    v: ArchiveView,
    i: u32,
    method: FileLoadMethod,
    prefs: LocalePreferences,
) -> Option<ArchiveView> {
    let d = at::<FileInfo>(v, i).spec_desc_index(prefs);
    if d < count::<FileDescriptor>(v) {
        let desc = at::<FileDescriptor>(v, d as u32);
        Some(with(v, d as u32, FileDescriptor { load_method: method.raw(), ..desc }))
    } else {
        None
    }
}

pub(crate) fn set_load_method(
    archive: &mut Archive,
    i: u32,
    method: FileLoadMethod,
    prefs: LocalePreferences,
) -> (r: bool)
    requires
        old(archive).wf(),
        holds::<FileInfo>(old(archive)@, i),
    ensures
        final(archive).wf(),
        r == (with_load_method(old(archive)@, i, method, prefs) is Some),
        r ==> with_load_method(old(archive)@, i, method, prefs) == Some(final(archive)@),
{
    let Some(info) = archive.read::<FileInfo>(i) else {
        return false;
    };
    let Some(d) = info.desc_index(prefs) else {
        return false;
    };
    let Some(mut desc) = archive.read::<FileDescriptor>(d) else {
        return false;
    };
    desc.set_load_method(method);
    archive.write(d, desc);
    true
}

/// State of giving group files paths of their own.
pub struct Resharing {
    pub archive: ArchiveView,
    /// For the index of each path that was copied, the index of its copy.
    pub renamed: Map<u32, u32>,
    /// Indices of the groups that were dealt with.
    pub managed: Set<u32>,
}

/// The copy of a path that stands for the data it has in a group.
pub open spec fn reshared_path(path: FilePath) -> FilePath {
    FilePath::of_parts(
        spec_with(path.spec_path(), encode_utf8(".reshared"@)),
        path.spec_parent(),
        path.spec_file_name(),
        path.spec_extension(),
        path.spec_entity(),
    )
}

/// The index of the copy of path `p`, after it was made if there was none.
pub open spec fn renamed_path(s: Resharing, p: u32) -> Option<(Resharing, u32)> {
    let copy = reshared_path(at::<FilePath>(s.archive, p));
    if !holds::<FilePath>(s.archive, p) {
        None
    } else if s.renamed.contains_key(p) {
        Some((s, s.renamed[p]))
    } else if !s.archive.can_insert_file_path(copy) {
        None
    } else {
        let n = count::<FilePath>(s.archive) as u32;
        Some(
            (
                Resharing {
                    archive: s.archive.insert_file_path(copy),
                    renamed: s.renamed.insert(p, n),
                    ..s
                },
                n,
            ),
        )
    }
}

/// Info `i` of a group after it was moved to the copy of its path. It is skipped in packages.
#[verifier::opaque]
pub open spec fn reshare_info(s: Resharing, i: u32, prefs: LocalePreferences) -> Option<Resharing> {
    let info = at::<FileInfo>(s.archive, i);
    match renamed_path(s, info.path) {
        Some((t, p)) => if info.flags.has(INFO_IS_RESHARED) {
            None
        } else {
            let v = with(
                t.archive,
                i,
                FileInfo { path: p, flags: info.flags.plus(INFO_IS_RESHARED), ..info },
            );
            match with_load_method(v, i, FileLoadMethod::PackageSkip(i), prefs) {
                Some(w) => Some(Resharing { archive: w, ..t }),
                None => None,
            }
        },
        None => None,
    }
}

/// The infos from `start` up to `end`, one after the other.
pub open spec fn reshare_run(s: Resharing, start: u32, end: int, prefs: LocalePreferences) -> Option<
    Resharing,
>
    decreases end - start,
{
    if end <= start {
        Some(s)
    } else {
        match reshare_run(s, start, end - 1, prefs) {
            Some(t) => reshare_info(t, (end - 1) as u32, prefs),
            None => None,
        }
    }
}

/// The infos of the group that the files of package `p` are shared in. Each group is dealt with once.
#[verifier::opaque]
pub open spec fn reshare_package(s: Resharing, p: u32, prefs: LocalePreferences) -> Option<Resharing> {
    let v = s.archive;
    let package = at::<FilePackage>(v, p);
    let g = at::<FileGroup>(v, package.spec_data_group()).redirection;
    let group = at::<FileGroup>(v, g);
    if !package.spec_has_file_group() {
        Some(s)
    } else if !holds::<FileGroup>(v, package.spec_data_group()) {
        None
    } else if !holds::<FileGroup>(v, g) || s.managed.contains(g) {
        Some(s)
    } else if !has_run::<FileInfo>(v, group.child_start, group.child_count) {
        None
    } else {
        reshare_run(
            Resharing { managed: s.managed.insert(g), ..s },
            group.child_start,
            group.child_start + group.child_count,
            prefs,
        )
    }
}

/// The groups of the first `n` packages.
pub open spec fn reshare_packages(s: Resharing, n: int, prefs: LocalePreferences) -> Option<Resharing>
    decreases n,
{
    if n <= 0 {
        Some(s)
    } else {
        match reshare_packages(s, n - 1, prefs) {
            Some(t) => reshare_package(t, (n - 1) as u32, prefs),
            None => None,
        }
    }
}

/// The archive after all infos of groups were moved to paths of their own.
pub open spec fn reshare_groups(v: ArchiveView, prefs: LocalePreferences) -> Option<ArchiveView> {
    match reshare_packages(
        Resharing { archive: v, renamed: Map::empty(), managed: Set::empty() },
        count::<FilePackage>(v) as int,
        prefs,
    ) {
        Some(s) => Some(s.archive),
        None => None,
    }
}

/// What has been done to the groups so far.
struct Regrouping {
    renamed: BTreeMap<u32, u32>,
    managed: BTreeSet<u32>,
}

impl Regrouping {
    spec fn state(&self, archive: ArchiveView) -> Resharing {
        Resharing { archive, renamed: self.renamed@, managed: self.managed@ }
    }

    fn rename_path(&mut self, archive: &mut Archive, p: u32) -> (r: Option<u32>)
        requires
            old(archive).wf(),
        ensures
            final(archive).wf(),
            match (r, renamed_path(old(self).state(old(archive)@), p)) {
                (Some(i), Some((t, j))) => i == j && t == final(self).state(final(archive)@),
                (None, None) => true,
                _ => false,
            },
    {
        let Some(path) = archive.read::<FilePath>(p) else {
            return None;
        };
        if let Some(i) = self.renamed.get(&p) {
            return Some(*i);
        }
        let copy = FilePath::from_parts(
            path.path().const_with(".reshared"),
            path.parent(),
            path.file_name(),
            path.extension(),
            path.path_and_entity.data(),
        );
        let Some(i) = archive.try_insert_file_path(copy) else {
            return None;
        };
        let _previous = self.renamed.insert(p, i);
        Some(i)
    }

    fn reshare_info(&mut self, archive: &mut Archive, i: u32, prefs: LocalePreferences) -> (r: bool)
        requires
            old(archive).wf(),
            holds::<FileInfo>(old(archive)@, i),
        ensures
            final(archive).wf(),
            r == (reshare_info(old(self).state(old(archive)@), i, prefs) is Some),
            r ==> reshare_info(old(self).state(old(archive)@), i, prefs) == Some(
                final(self).state(final(archive)@),
            ),
    {
        proof {
            reveal(reshare_info);
        }
        let Some(mut info) = archive.read::<FileInfo>(i) else {
            return false;
        };
        let Some(p) = self.rename_path(archive, info.path) else {
            return false;
        };
        if info.flags().intersects(INFO_IS_RESHARED) {
            return false;
        }
        info.set_path(p);
        info.set_as_reshared();
        archive.write(i, info);
        set_load_method(archive, i, FileLoadMethod::PackageSkip(i), prefs)
    }

    fn reshare_run(&mut self, archive: &mut Archive, start: u32, end: u32, prefs: LocalePreferences) -> (r:
        bool)
        requires
            old(archive).wf(),
            end <= count::<FileInfo>(old(archive)@),
        ensures
            final(archive).wf(),
            r == (reshare_run(old(self).state(old(archive)@), start, end as int, prefs) is Some),
            r ==> reshare_run(old(self).state(old(archive)@), start, end as int, prefs) == Some(
                final(self).state(final(archive)@),
            ),
    {
        let ghost s = self.state(archive@);
        let mut i: u32 = start;
        while i < end
            invariant
                s == old(self).state(old(archive)@),
                start <= i,
                i <= end || i == start,
                archive.wf(),
                end <= count::<FileInfo>(archive@),
                reshare_run(s, start, i as int, prefs) == Some(self.state(archive@)),
            decreases end - i,
        {
            proof {
                lemma_reshare_info_counts(self.state(archive@), i, prefs);
            }
            if !self.reshare_info(archive, i, prefs) {
                proof {
                    lemma_reshare_run_fails(s, start, i + 1, end as int, prefs);
                }
                return false;
            }
            i += 1;
        }
        true
    }

    fn reshare_package(&mut self, archive: &mut Archive, p: u32, prefs: LocalePreferences) -> (r: bool)
        requires
            old(archive).wf(),
            holds::<FilePackage>(old(archive)@, p),
        ensures
            final(archive).wf(),
            r == (reshare_package(old(self).state(old(archive)@), p, prefs) is Some),
            r ==> reshare_package(old(self).state(old(archive)@), p, prefs) == Some(
                final(self).state(final(archive)@),
            ),
    {
        proof {
            reveal(reshare_package);
        }
        let Some(package) = archive.read::<FilePackage>(p) else {
            return false;
        };
        if !package.has_file_group() {
            return true;
        }
        let Some(data_group) = archive.read::<FileGroup>(package.path_and_group.data()) else {
            return false;
        };
        let g: u32 = data_group.redirection();
        let Some(group) = archive.read::<FileGroup>(g) else {
            return true;
        };
        if self.managed.contains(&g) {
            return true;
        }
        let (start, end): (u32, u32) = match archive.get_file_info_slice(
            group.child_start,
            group.child_count,
        ) {
            Some(slice) => slice.range(),
            None => {
                return false;
            },
        };
        let _new = self.managed.insert(g);
        self.reshare_run(archive, start, end, prefs)
    }
}

proof fn lemma_reshare_run_fails(s: Resharing, start: u32, a: int, b: int, prefs: LocalePreferences)
    requires
        start <= a <= b,
        reshare_run(s, start, a, prefs) is None,
    ensures
        reshare_run(s, start, b, prefs) is None,
    decreases b,
{
    if a < b {
        lemma_reshare_run_fails(s, start, a, b - 1, prefs);
    }
}

proof fn lemma_reshare_packages_fails(s: Resharing, a: int, b: int, prefs: LocalePreferences)
    requires
        0 <= a <= b,
        reshare_packages(s, a, prefs) is None,
    ensures
        reshare_packages(s, b, prefs) is None,
    decreases b,
{
    if a < b {
        lemma_reshare_packages_fails(s, a, b - 1, prefs);
    }
}

/// Moving an info to a path of its own leaves the number of infos, packages and groups.
proof fn lemma_reshare_info_counts(s: Resharing, i: u32, prefs: LocalePreferences)
    requires
        holds::<FileInfo>(s.archive, i),
    ensures
        reshare_info(s, i, prefs) matches Some(t) ==> count::<FilePackage>(t.archive) == count::<
            FilePackage,
        >(s.archive) && count::<FileInfo>(t.archive) == count::<FileInfo>(s.archive),
{
    reveal(reshare_info);
}

proof fn lemma_reshare_run_counts(s: Resharing, start: u32, end: int, prefs: LocalePreferences)
    requires
        end <= count::<FileInfo>(s.archive) <= u32::MAX,
    ensures
        reshare_run(s, start, end, prefs) matches Some(t) ==> count::<FilePackage>(t.archive)
            == count::<FilePackage>(s.archive) && count::<FileInfo>(t.archive) == count::<FileInfo>(
            s.archive,
        ),
    decreases end - start,
{
    if end > start {
        lemma_reshare_run_counts(s, start, end - 1, prefs);
        if let Some(t) = reshare_run(s, start, end - 1, prefs) {
            lemma_reshare_info_counts(t, (end - 1) as u32, prefs);
        }
    }
}

/// Gives the files of groups paths of their own.
pub fn reshare_group_files(archive: &mut Archive, prefs: LocalePreferences) -> (r: bool)
    requires
        old(archive).wf(),
    ensures
        final(archive).wf(),
        r == (reshare_groups(old(archive)@, prefs) is Some),
        r ==> reshare_groups(old(archive)@, prefs) == Some(final(archive)@),
{
    let mut groups = Regrouping { renamed: BTreeMap::new(), managed: BTreeSet::new() };
    let ghost s = groups.state(archive@);
    let n: usize = archive.num::<FilePackage>();
    proof {
        law_stored(archive@, 0, at::<FilePackage>(archive@, 0));
        assert(s.renamed =~= Map::empty());
        assert(s.managed =~= Set::empty());
    }
    let mut p: u32 = 0;
    while (p as usize) < n
        invariant
            archive.wf(),
            p <= n <= u32::MAX,
            n == count::<FilePackage>(archive@),
            n == count::<FilePackage>(old(archive)@),
            s == (Resharing {
                archive: old(archive)@,
                renamed: Map::empty(),
                managed: Set::empty(),
            }),
            reshare_packages(s, p as int, prefs) == Some(groups.state(archive@)),
        decreases n - p,
    {
        proof {
            lemma_reshare_package_counts(groups.state(archive@), p, prefs);
        }
        if !groups.reshare_package(archive, p, prefs) {
            proof {
                lemma_reshare_packages_fails(s, p + 1, n as int, prefs);
            }
            return false;
        }
        p += 1;
    }
    true
}

proof fn lemma_reshare_package_counts(s: Resharing, p: u32, prefs: LocalePreferences)
    requires
        s.archive.wf(),
    ensures
        reshare_package(s, p, prefs) matches Some(t) ==> count::<FilePackage>(t.archive) == count::<
            FilePackage,
        >(s.archive),
{
    reveal(reshare_package);
    let v = s.archive;
    let g = at::<FileGroup>(v, at::<FilePackage>(v, p).spec_data_group()).redirection;
    let group = at::<FileGroup>(v, g);
    if has_run::<FileInfo>(v, group.child_start, group.child_count) {
        lemma_reshare_run_counts(
            Resharing { managed: s.managed.insert(g), ..s },
            group.child_start,
            group.child_start + group.child_count,
            prefs,
        );
    }
}

} // verus!
