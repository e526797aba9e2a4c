//! Which files of the archive share their data.
//!
//! The infos of a package name the entity that their data belongs to, and the entity names the info
//! that the data is loaded by. A file whose info is not that one is shared. Before such a file can be
//! replaced it has to be given data of its own, and before the file that it shares with can be
//! replaced it has to be pointed at a copy. The caches collected here say which infos that concerns.

use crate::access::{at, count, has_run, holds};
use crate::archive::{Archive, ArchiveView};
use crate::data::{FileDescriptor, FileEntity, FileInfo, FileLoadMethod, FilePackage, FilePath};
use std::collections::BTreeMap;
use vstd::prelude::*;

verus! {

broadcast use {vstd::laws_cmp::group_laws_cmp, vstd::std_specs::btree::group_btree_axioms};

/// How an info comes by its data.
pub enum Sharing {
    /// The data is loaded by this info.
    Own,
    /// The data is loaded by another info of the same path, and goes on being so.
    Kept(u32),
    /// The data is loaded by another info.
    Shared(u32),
}

/// How info `i` comes by its data. `None` if the records that say so are not all there.
///
/// An info that shares with another info of its own path is a matter of two packages with the same
/// file, which needs no care, unless that info is skipped in packages: then the data is part of a
/// group, which is loaded in any case, and the file is shared like any other.
pub open spec fn sharing(v: ArchiveView, i: u32) -> Option<Sharing> {
    let info = at::<FileInfo>(v, i);
    let s = at::<FileEntity>(v, info.entity).info;
    let shared = at::<FileInfo>(v, s);
    let method = at::<FileDescriptor>(v, shared.desc).load_method;
    if !holds::<FileInfo>(v, i) || !holds::<FileEntity>(v, info.entity) || !holds::<FileInfo>(v, s) {
        None
    } else if i == s {
        Some(Sharing::Own)
    } else if !holds::<FilePath>(v, info.path) || !holds::<FilePath>(v, shared.path) {
        None
    } else if info.path != shared.path {
        Some(Sharing::Shared(s))
    } else if !holds::<FileDescriptor>(v, shared.desc) || !FileLoadMethod::is_known(method) {
        None
    } else if FileLoadMethod::of_raw(method) is PackageSkip {
        Some(Sharing::Shared(s))
    } else {
        Some(Sharing::Kept(s))
    }
}

/// Where the records are there, an info has data of its own exactly if the entity that it points to is loaded
/// by it. Otherwise it shares with the info that the entity is loaded by. That goes on if both have the same
/// path and the other one is not skipped in packages, and has to be taken care of if not.
pub proof fn law_sharing(v: ArchiveView, i: u32)
    requires
        holds::<FileInfo>(v, i),
        holds::<FileEntity>(v, at::<FileInfo>(v, i).entity),
        holds::<FileInfo>(v, at::<FileEntity>(v, at::<FileInfo>(v, i).entity).info),
    ensures
        ({
            let s = at::<FileEntity>(v, at::<FileInfo>(v, i).entity).info;
            let path = at::<FileInfo>(v, i).path;
            let other = at::<FileInfo>(v, s).path;
            let desc = at::<FileInfo>(v, s).desc;
            let kind = at::<FileDescriptor>(v, desc).load_method / 0x100_0000;
            let paths = holds::<FilePath>(v, path) && holds::<FilePath>(v, other);
            let known = holds::<FileDescriptor>(v, desc) && (kind == 0 || kind == 1 || kind == 3 || kind == 5
                || kind == 9 || kind == 16);
            &&& sharing(v, i) == Some(Sharing::Own) <==> s == i
            &&& sharing(v, i) == Some(Sharing::Shared(s)) <==> s != i && paths && (path != other || known
                && kind == 3)
            &&& sharing(v, i) == Some(Sharing::Kept(s)) <==> s != i && paths && path == other && known && kind
                != 3
            &&& sharing(v, i) is None <==> s != i && (!paths || path == other && !known)
        }),
{
}

/// Key of the path of info `i`.
pub open spec fn path_key(v: ArchiveView, i: u32) -> u64 {
    at::<FilePath>(v, at::<FileInfo>(v, i).path).spec_path().0
}

/// Do the infos of the first `n` packages lie within the table?
pub open spec fn runs_fit(v: ArchiveView, n: int) -> bool {
    forall|p: u32|
        p < n ==> has_run::<FileInfo>(
            v,
            #[trigger] at::<FilePackage>(v, p).info_start,
            at::<FilePackage>(v, p).info_count,
        )
}

/// The infos of package `p`, each behind the index of the package.
pub open spec fn package_run(v: ArchiveView, p: u32) -> Seq<(u32, u32)> {
    let package = at::<FilePackage>(v, p);
    Seq::new(package.info_count as nat, |i: int| (p, (package.info_start + i) as u32))
}

/// The infos of the first `n` packages, package by package.
pub open spec fn package_infos(v: ArchiveView, n: int) -> Seq<(u32, u32)>
    decreases n,
{
    if n <= 0 {
        Seq::empty()
    } else {
        package_infos(v, n - 1) + package_run(v, (n - 1) as u32)
    }
}

/// What is known of the sharing among infos.
pub struct ShareView {
    /// For the key of each shared path, its infos and their packages.
    pub unshare: Map<u64, Seq<(u32, u32)>>,
    /// For each info that others share with, those that do.
    pub reverse: Map<u32, Seq<u32>>,
}

impl ShareView {
    pub open spec fn empty() -> ShareView {
        ShareView { unshare: Map::empty(), reverse: Map::empty() }
    }

    /// The infos of a path that are shared. None if there is no entry.
    pub open spec fn infos_of(self, k: u64) -> Seq<(u32, u32)> {
        if self.unshare.contains_key(k) {
            self.unshare[k]
        } else {
            Seq::empty()
        }
    }

    /// The infos that share with `s`. None if there is no entry.
    pub open spec fn dependents_of(self, s: u32) -> Seq<u32> {
        if self.reverse.contains_key(s) {
            self.reverse[s]
        } else {
            Seq::empty()
        }
    }
}

/// What the infos `run` add up to: each shared info stands in the list of its path and in the list of
/// the info that it shares with, in the order of `run`.
pub open spec fn collected(v: ArchiveView, run: Seq<(u32, u32)>) -> ShareView
    decreases run.len(),
{
    if run.len() == 0 {
        ShareView::empty()
    } else {
        let c = collected(v, run.drop_last());
        let (p, i) = run.last();
        match sharing(v, i) {
            Some(Sharing::Kept(s)) => ShareView {
                reverse: c.reverse.insert(s, c.dependents_of(s)),
                ..c
            },
            Some(Sharing::Shared(s)) => {
                let k = path_key(v, i);
                ShareView {
                    unshare: c.unshare.insert(k, c.infos_of(k).push((p, i))),
                    reverse: c.reverse.insert(s, c.dependents_of(s).push(i)),
                }
            },
            _ => c,
        }
    }
}

/// Can the sharing of all these infos be told?
pub open spec fn all_known(v: ArchiveView, run: Seq<(u32, u32)>) -> bool {
    forall|j: int| 0 <= j < run.len() ==> sharing(v, (#[trigger] run[j]).1) is Some
}

/// A list of the caches holds exactly the infos that belong there: those of the path that share with
/// another info, and those that share with the info.
pub proof fn law_collected(v: ArchiveView, run: Seq<(u32, u32)>, k: u64, s: u32)
    ensures
        collected(v, run).infos_of(k) == run.filter(
            |e: (u32, u32)| sharing(v, e.1) matches Some(Sharing::Shared(_)) && path_key(v, e.1) == k,
        ),
        collected(v, run).unshare.contains_key(k) <==> collected(v, run).infos_of(k).len() > 0,
        collected(v, run).dependents_of(s) == run.filter(
            |e: (u32, u32)| sharing(v, e.1) == Some(Sharing::Shared(s)),
        ).map_values(|e: (u32, u32)| e.1),
        collected(v, run).reverse.contains_key(s) <==> exists|j: int|
            0 <= j < run.len() && (sharing(v, (#[trigger] run[j]).1) == Some(Sharing::Shared(s))
                || sharing(v, run[j].1) == Some(Sharing::Kept(s))),
    decreases run.len(),
{
    let by_path = |e: (u32, u32)|
        sharing(v, e.1) matches Some(Sharing::Shared(_)) && path_key(v, e.1) == k;
    let by_info = |e: (u32, u32)| sharing(v, e.1) == Some(Sharing::Shared(s));
    reveal(Seq::filter);
    if run.len() > 0 {
        let front = run.drop_last();
        law_collected(v, front, k, s);
        let f = front.filter(by_info);
        assert(f.push(run.last()).map_values(|e: (u32, u32)| e.1) =~= f.map_values(
            |e: (u32, u32)| e.1,
        ).push(run.last().1));
        let c = collected(v, front);
        if c.reverse.contains_key(s) {
            let j = choose|j: int|
                0 <= j < front.len() && (sharing(v, (#[trigger] front[j]).1) == Some(
                    Sharing::Shared(s),
                ) || sharing(v, front[j].1) == Some(Sharing::Kept(s)));
            assert(run[j] == front[j]);
        }
        assert(run[run.len() - 1] == run.last());
        assert forall|j: int|
            0 <= j < run.len() - 1 && (sharing(v, (#[trigger] run[j]).1) == Some(Sharing::Shared(s))
                || sharing(v, run[j].1) == Some(Sharing::Kept(s))) implies c.reverse.contains_key(
            s,
        ) by {
            assert(front[j] == run[j]);
        }
    } else {
        assert(run.filter(by_info).map_values(|e: (u32, u32)| e.1) =~= Seq::empty());
    }
}

/// Collects the infos that have to be taken care of when a file is replaced.
pub struct ShareCaches {
    unshare: BTreeMap<u64, Vec<(u32, u32)>>,
    reverse: BTreeMap<u32, Vec<u32>>,
}

impl View for ShareCaches {
    type V = ShareView;

    closed spec fn view(&self) -> ShareView {
        ShareView {
            unshare: self.unshare@.map_values(|l: Vec<(u32, u32)>| l@),
            reverse: self.reverse@.map_values(|l: Vec<u32>| l@),
        }
    }
}

impl ShareCaches {
    pub fn new() -> (r: ShareCaches)
        ensures
            r@ == ShareView::empty(),
    {
        let r = ShareCaches { unshare: BTreeMap::new(), reverse: BTreeMap::new() };
        proof {
            assert(r@.unshare =~= Map::empty());
            assert(r@.reverse =~= Map::empty());
        }
        r
    }

    /// The shared infos of a path, and their packages.
    pub fn infos_of(&self, k: u64) -> (r: Option<&Vec<(u32, u32)>>)
        ensures
            match r {
                Some(l) => self@.unshare.contains_key(k) && l@ == self@.unshare[k],
                None => !self@.unshare.contains_key(k),
            },
    {
        self.unshare.get(&k)
    }

    /// Takes out the list of infos that share with info `s`.
    pub fn take_dependents(&mut self, s: u32) -> (r: Option<Vec<u32>>)
        ensures
            final(self)@ == (ShareView { reverse: old(self)@.reverse.remove(s), ..old(self)@ }),
            match r {
                Some(l) => old(self)@.reverse.contains_key(s) && l@ == old(self)@.reverse[s],
                None => !old(self)@.reverse.contains_key(s),
            },
    {
        let r = self.reverse.remove(&s);
        proof {
            assert(self@.reverse =~= old(self)@.reverse.remove(s));
        }
        r
    }

    fn add_info(&mut self, k: u64, p: u32, i: u32)
        ensures
            final(self)@ == (ShareView {
                unshare: old(self)@.unshare.insert(k, old(self)@.infos_of(k).push((p, i))),
                ..old(self)@
            }),
    {
        let mut list = match self.unshare.remove(&k) {
            Some(l) => l,
            None => Vec::new(),
        };
        proof {
            assert(list@ =~= old(self)@.infos_of(k));
        }
        list.push((p, i));
        let _previous = self.unshare.insert(k, list);
        proof {
            assert(self@.unshare =~= old(self)@.unshare.insert(
                k,
                old(self)@.infos_of(k).push((p, i)),
            ));
        }
    }

    fn add_dependent(&mut self, s: u32, i: Option<u32>)
        ensures
            final(self)@ == (ShareView {
                reverse: old(self)@.reverse.insert(
                    s,
                    match i {
                        Some(x) => old(self)@.dependents_of(s).push(x),
                        None => old(self)@.dependents_of(s),
                    },
                ),
                ..old(self)@
            }),
    {
        let mut list = match self.reverse.remove(&s) {
            Some(l) => l,
            None => Vec::new(),
        };
        proof {
            assert(list@ =~= old(self)@.dependents_of(s));
        }
        if let Some(x) = i {
            list.push(x);
        }
        let ghost l = list@;
        let _previous = self.reverse.insert(s, list);
        proof {
            assert(self@.reverse =~= old(self)@.reverse.insert(s, l));
        }
    }
}

/// How info `i` comes by its data.
fn sharing_of(archive: &Archive, i: u32) -> (r: Option<Sharing>)
    requires
        archive.wf(),
    ensures
        r == sharing(archive@, i),
{
    let info = archive.read::<FileInfo>(i)?;
    let s: u32 = archive.read::<FileEntity>(info.entity)?.info;
    let shared = archive.read::<FileInfo>(s)?;
    if i == s {
        return Some(Sharing::Own);
    }
    let _path = archive.read::<FilePath>(info.path)?;
    let _shared_path = archive.read::<FilePath>(shared.path)?;
    if info.path != shared.path {
        return Some(Sharing::Shared(s));
    }
    let desc = archive.read::<FileDescriptor>(shared.desc)?;
    let method = FileLoadMethod::from_raw(desc.load_method)?;
    if method.is_skip() {
        Some(Sharing::Shared(s))
    } else {
        Some(Sharing::Kept(s))
    }
}

/// Collects the sharing among the infos of all packages. `None` if it cannot be told.
pub fn build_share_caches(archive: &Archive) -> (r: Option<ShareCaches>)
    requires
        archive.wf(),
    ensures
        r is Some <==> runs_fit(archive@, count::<FilePackage>(archive@) as int) && all_known(
            archive@,
            package_infos(archive@, count::<FilePackage>(archive@) as int),
        ),
        r matches Some(c) ==> c@ == collected(
            archive@,
            package_infos(archive@, count::<FilePackage>(archive@) as int),
        ),
{
    let ghost v = archive@;
    let ghost total = package_infos(v, count::<FilePackage>(v) as int);
    let mut caches = ShareCaches::new();
    let n: usize = archive.num::<FilePackage>();
    proof {
        crate::access::law_stored(v, 0, at::<FilePackage>(v, 0));
    }
    let mut p: u32 = 0;
    while (p as usize) < n
        invariant
            archive.wf(),
            v == archive@,
            n == count::<FilePackage>(v) <= u32::MAX,
            total == package_infos(v, n as int),
            p <= n,
            runs_fit(v, p as int),
            all_known(v, package_infos(v, p as int)),
            caches@ == collected(v, package_infos(v, p as int)),
        decreases n - p,
    {
        let package = match archive.read::<FilePackage>(p) {
            Some(package) => package,
            None => {
                return None;
            },
        };
        proof {
            lemma_package_infos_prefix(v, p + 1, n as int);
        }
        let slice = match archive.get_file_info_slice(package.info_start, package.info_count) {
            Some(slice) => slice,
            None => {
                proof {
                    assert(at::<FilePackage>(v, p).info_start == package.info_start);
                }
                return None;
            },
        };
        let ghost before = package_infos(v, p as int);
        let ghost run = package_run(v, p);
        let mut j: u32 = 0;
        proof {
            assert(before + run.take(0) =~= before);
        }
        while j < slice.count
            invariant
                archive.wf(),
                v == archive@,
                slice.wf(),
                slice.archive == archive,
                slice.start == at::<FilePackage>(v, p).info_start,
                slice.count == at::<FilePackage>(v, p).info_count,
                slice.start + slice.count <= u32::MAX,
                p < n == count::<FilePackage>(v) <= u32::MAX,
                total == package_infos(v, n as int),
                before == package_infos(v, p as int),
                run == package_run(v, p),
                package_infos(v, p + 1) == before + run,
                package_infos(v, p + 1).len() <= total.len(),
                forall|k: int| 0 <= k < package_infos(v, p + 1).len() ==> #[trigger] total[k]
                    == package_infos(v, p + 1)[k],
                j <= slice.count,
                all_known(v, before + run.take(j as int)),
                caches@ == collected(v, before + run.take(j as int)),
            decreases slice.count - j,
        {
            let i: u32 = slice.start + j;
            let ghost part = before + run.take(j as int);
            let ghost next = before + run.take(j + 1);
            proof {
                assert(run[j as int] == (p, i));
                assert(next =~= part.push((p, i)));
                assert(next.drop_last() =~= part);
                assert(total[before.len() + j] == (before + run)[before.len() + j]);
            }
            let how = match sharing_of(archive, i) {
                Some(how) => how,
                None => {
                    proof {
                        assert(sharing(v, total[before.len() + j].1) is None);
                    }
                    return None;
                },
            };
            match how {
                Sharing::Own => {},
                Sharing::Kept(s) => {
                    caches.add_dependent(s, None);
                },
                Sharing::Shared(s) => {
                    caches.add_dependent(s, Some(i));
                    if let Some(info) = archive.read::<FileInfo>(i) {
                        if let Some(path) = archive.read::<FilePath>(info.path) {
                            caches.add_info(path.path().raw(), p, i);
                        }
                    }
                },
            }
            proof {
                assert forall|k: int| 0 <= k < next.len() implies sharing(
                    v,
                    (#[trigger] next[k]).1,
                ) is Some by {
                    if k < part.len() {
                        assert(part[k] == next[k]);
                    }
                }
            }
            j += 1;
        }
        proof {
            assert(run.take(j as int) =~= run);
            assert(runs_fit(v, p + 1)) by {
                assert forall|q: u32| q < p + 1 implies has_run::<FileInfo>(
                    v,
                    #[trigger] at::<FilePackage>(v, q).info_start,
                    at::<FilePackage>(v, q).info_count,
                ) by {
                    if q != p {
                        assert(q < p);
                    }
                }
            }
        }
        p += 1;
    }
    Some(caches)
}

proof fn lemma_package_infos_prefix(v: ArchiveView, a: int, b: int)
    requires
        0 <= a <= b,
    ensures
        package_infos(v, a).len() <= package_infos(v, b).len(),
        forall|k: int|
            0 <= k < package_infos(v, a).len() ==> #[trigger] package_infos(v, b)[k]
                == package_infos(v, a)[k],
    decreases b,
{
    if a < b {
        lemma_package_infos_prefix(v, a, b - 1);
        assert forall|k: int| 0 <= k < package_infos(v, a).len() implies #[trigger] package_infos(
            v,
            b,
        )[k] == package_infos(v, a)[k] by {
            assert(package_infos(v, b)[k] == package_infos(v, b - 1)[k]);
        }
    }
}

} // verus!
