//! What giving the files of groups paths of their own does to each of them.

use crate::access::{at, count, has_run, holds, law_stored, with};
use crate::add_files::NewFile;
use crate::add_laws::lemma_added_keep_infos;
use crate::archive::{ArchiveView, ResourceView};
use crate::data::{
    law_hash_with_data, law_load_method, FileDescriptor, FileEntity, FileGroup, FileInfo, FileInfoFlags,
    FileLoadMethod, FilePackage, FilePath, INFO_IS_RESHARED,
};
use crate::hash40::{law_hash40_wf, spec_with, Hash40};
use crate::load_laws::{lemma_copied, lemma_shared_flags};
use crate::locale::LocalePreferences;
use crate::lookup::law_insert_file_path;
use crate::patch::patched;
use crate::patch_laws::{
    law_add_files_grows, law_reshare_groups_grows, lemma_redirect_grows, lemma_replace_all_grows,
};
use crate::reshare::{
    renamed_path, reshare_groups, reshare_info, reshare_package, reshare_packages, reshare_run,
    reshared_path, with_load_method, Resharing,
};
use crate::share::{collected, package_infos};
use crate::unshare::{
    can_copy, can_own, copied, follow_all, owned, redirect, redirect_all, replace, replace_all, resized,
    unshare, Patching,
};
use crate::unshare_laws::{lemma_followed, lemma_owned_records};
use vstd::prelude::*;
use vstd::utf8::encode_utf8;

verus! {

/// Is info `i` one of the group that package `p` leads to? The package names its data group, and that
/// names the group in which files are shared.
pub open spec fn is_group_file(v: ArchiveView, p: u32, i: u32) -> bool {
    let package = at::<FilePackage>(v, p);
    let g = at::<FileGroup>(v, package.spec_data_group()).redirection;
    let group = at::<FileGroup>(v, g);
    &&& holds::<FilePackage>(v, p)
    &&& package.flags.bits & 0x1400_0000 == 0x400_0000
    &&& holds::<FileGroup>(v, g)
    &&& group.child_start <= i < group.child_start + group.child_count
}

/// Does any package lead to a group with info `i`?
pub open spec fn in_some_group(v: ArchiveView, i: u32) -> bool {
    exists|p: u32| #[trigger] is_group_file(v, p, i)
}

/// Was info `i` flagged on the way from `v` to `w`?
pub open spec fn flagged(v: ArchiveView, w: ArchiveView, i: u32) -> bool {
    &&& holds::<FileInfo>(v, i)
    &&& at::<FileInfo>(v, i).flags.bits & 0x8000_0000 == 0
    &&& at::<FileInfo>(w, i).flags.bits == at::<FileInfo>(v, i).flags.bits | 0x8000_0000
}

/// Info `i` has the copy of its path for its path: one that was not there, that is found by the hash of the
/// path with `.reshared` behind it, and that leads to the same entity.
pub open spec fn has_copied_path(v: ArchiveView, w: ArchiveView, i: u32) -> bool {
    let old = at::<FileInfo>(v, i).path;
    let new = at::<FileInfo>(w, i).path;
    let hash = spec_with(at::<FilePath>(w, old).spec_path(), encode_utf8(".reshared"@));
    &&& holds::<FilePath>(w, old)
    &&& holds::<FilePath>(w, new)
    &&& new >= count::<FilePath>(v)
    &&& w.find_file_path(hash) == Some(new)
    &&& at::<FilePath>(w, new).spec_path() == hash
    &&& at::<FilePath>(w, new).spec_entity() == at::<FilePath>(w, old).spec_entity()
    &&& at::<FilePath>(w, new).spec_extension() == at::<FilePath>(w, old).spec_extension()
    &&& at::<FilePath>(w, old).spec_parent().wf() ==> at::<FilePath>(w, new).spec_parent() == at::<
        FilePath,
    >(w, old).spec_parent()
    &&& at::<FilePath>(w, old).spec_file_name().wf() ==> at::<FilePath>(w, new).spec_file_name() == at::<
        FilePath,
    >(w, old).spec_file_name()
}

/// Descriptor `d` is the one in force of info `j` and sends packages to that info.
pub open spec fn skips_to(v: ArchiveView, w: ArchiveView, d: int, j: u32, prefs: LocalePreferences) -> bool {
    &&& flagged(v, w, j)
    &&& at::<FileInfo>(v, j).spec_desc_index(prefs) == d
    &&& at::<FileDescriptor>(w, d as u32) == (FileDescriptor {
        load_method: FileLoadMethod::PackageSkip(j).raw(),
        ..at::<FileDescriptor>(v, d as u32)
    })
}

/// Some info of those that were flagged has descriptor `d` in force, which sends packages to it.
pub open spec fn skips(v: ArchiveView, w: ArchiveView, d: int, prefs: LocalePreferences) -> bool {
    exists|j: u32| #[trigger] skips_to(v, w, d, j, prefs)
}

/// All that may have changed from `v` to the state `s` on the way: infos that were flagged, their
/// descriptors, and paths that were added.
pub open spec fn on_the_way(v: ArchiveView, s: Resharing, prefs: LocalePreferences) -> bool {
    let w = s.archive;
    &&& w.wf()
    &&& w.search == v.search
    &&& w.resource == (ResourceView {
        file_path_lookup: w.resource.file_path_lookup,
        file_path: w.resource.file_path,
        file_info: w.resource.file_info,
        file_desc: w.resource.file_desc,
        ..v.resource
    })
    &&& count::<FileInfo>(w) == count::<FileInfo>(v)
    &&& count::<FileDescriptor>(w) == count::<FileDescriptor>(v)
    &&& count::<FilePath>(w) >= count::<FilePath>(v)
    &&& forall|k: u32| #[trigger]
        holds::<FilePath>(v, k) ==> at::<FilePath>(w, k) == at::<FilePath>(v, k)
    &&& forall|k: u32| #[trigger]
        s.renamed.contains_key(k) ==> {
            let n = s.renamed[k];
            &&& holds::<FilePath>(w, k)
            &&& holds::<FilePath>(w, n)
            &&& n >= count::<FilePath>(v)
            &&& at::<FilePath>(w, n) == reshared_path(at::<FilePath>(w, k))
            &&& w.find_file_path(at::<FilePath>(w, n).spec_path()) == Some(n)
        }
    &&& forall|i: u32| #[trigger]
        holds::<FileInfo>(v, i) ==> at::<FileInfo>(w, i) == at::<FileInfo>(v, i) || {
            &&& flagged(v, w, i)
            &&& in_some_group(v, i)
            &&& at::<FileInfo>(w, i).entity == at::<FileInfo>(v, i).entity
            &&& at::<FileInfo>(w, i).desc == at::<FileInfo>(v, i).desc
            &&& has_copied_path(v, w, i)
            &&& 0 <= at::<FileInfo>(v, i).spec_desc_index(prefs) < count::<FileDescriptor>(v)
            &&& skips(v, w, at::<FileInfo>(v, i).spec_desc_index(prefs), prefs)
        }
    &&& forall|d: u32| #[trigger]
        holds::<FileDescriptor>(v, d) ==> at::<FileDescriptor>(w, d) == at::<FileDescriptor>(v, d)
            || skips(v, w, d as int, prefs)
}

proof fn lemma_flag(flags: FileInfoFlags)
    ensures
        flags.plus(INFO_IS_RESHARED).bits & 0x8000_0000 != 0,
{
    let b = flags.bits;
    assert((b | 0x8000_0000) & 0x8000_0000 != 0) by (bit_vector);
}

pub(crate) proof fn lemma_reshared_path(path: FilePath)
    ensures
        reshared_path(path).spec_path() == spec_with(path.spec_path(), encode_utf8(".reshared"@)),
        reshared_path(path).spec_entity() == path.spec_entity(),
        reshared_path(path).spec_extension() == path.spec_extension(),
        path.spec_parent().wf() ==> reshared_path(path).spec_parent() == path.spec_parent(),
        path.spec_file_name().wf() ==> reshared_path(path).spec_file_name() == path.spec_file_name(),
{
    let h = spec_with(path.spec_path(), encode_utf8(".reshared"@));
    law_hash40_wf(path.spec_path(), h, encode_utf8(".reshared"@));
    law_hash_with_data(h, path.spec_entity());
    law_hash_with_data(path.spec_extension(), 0xFF_FFFF);
    if path.spec_parent().wf() {
        law_hash_with_data(path.spec_parent(), 0);
    }
    if path.spec_file_name().wf() {
        law_hash_with_data(path.spec_file_name(), 0);
    }
}

/// Finding or making the copy of a path keeps what holds on the way, and the copy is there afterwards.
proof fn lemma_renamed_on_the_way(v: ArchiveView, s: Resharing, p: u32, prefs: LocalePreferences)
    requires
        on_the_way(v, s, prefs),
    ensures
        renamed_path(s, p) matches Some((t, n)) ==> on_the_way(v, t, prefs) && t.renamed.contains_key(p)
            && t.renamed[p] == n && t.archive.resource.file_info == s.archive.resource.file_info
            && t.archive.resource.file_desc == s.archive.resource.file_desc && t.managed == s.managed,
{
    let w = s.archive;
    let copy = reshared_path(at::<FilePath>(w, p));
    if holds::<FilePath>(w, p) && !s.renamed.contains_key(p) && w.can_insert_file_path(copy) {
        let x = w.insert_file_path(copy);
        let n = count::<FilePath>(w) as u32;
        law_stored(w, 0, copy);
        law_insert_file_path(w, copy, copy.spec_path());
        let (t, _) = renamed_path(s, p)->0;
        assert(t.archive == x);
        assert forall|k: u32| #[trigger] holds::<FilePath>(w, k) implies at::<FilePath>(x, k) == at::<
            FilePath,
        >(w, k) by {}
        assert forall|k: u32| #[trigger] t.renamed.contains_key(k) implies {
            let m = t.renamed[k];
            &&& holds::<FilePath>(x, k)
            &&& holds::<FilePath>(x, m)
            &&& m >= count::<FilePath>(v)
            &&& at::<FilePath>(x, m) == reshared_path(at::<FilePath>(x, k))
            &&& x.find_file_path(at::<FilePath>(x, m).spec_path()) == Some(m)
        } by {
            if k != p {
                assert(s.renamed.contains_key(k));
                let m = s.renamed[k];
                law_insert_file_path(w, copy, at::<FilePath>(w, m).spec_path());
            }
        }
        assert forall|i: u32| #[trigger] holds::<FileInfo>(v, i) && at::<FileInfo>(x, i) != at::<FileInfo>(
            v,
            i,
        ) implies {
            &&& flagged(v, x, i)
            &&& in_some_group(v, i)
            &&& has_copied_path(v, x, i)
            &&& skips(v, x, at::<FileInfo>(v, i).spec_desc_index(prefs), prefs)
        } by {
            let old = at::<FileInfo>(v, i).path;
            law_insert_file_path(
                w,
                copy,
                spec_with(at::<FilePath>(w, old).spec_path(), encode_utf8(".reshared"@)),
            );
            lemma_skips_frame(v, w, x, at::<FileInfo>(v, i).spec_desc_index(prefs), prefs);
        }
        assert forall|d: u32| #[trigger] holds::<FileDescriptor>(v, d) && at::<FileDescriptor>(x, d)
            != at::<FileDescriptor>(v, d) implies skips(v, x, d as int, prefs) by {
            lemma_skips_frame(v, w, x, d as int, prefs);
        }
    }
}

proof fn lemma_skips_frame(v: ArchiveView, w: ArchiveView, x: ArchiveView, d: int, prefs: LocalePreferences)
    requires
        skips(v, w, d, prefs),
        x.resource.file_info == w.resource.file_info,
        at::<FileDescriptor>(x, d as u32) == at::<FileDescriptor>(w, d as u32),
    ensures
        skips(v, x, d, prefs),
{
    let j = choose|j: u32| #[trigger] skips_to(v, w, d, j, prefs);
    assert(skips_to(v, x, d, j, prefs));
}

/// One more info of a group.
#[verifier::spinoff_prover]
proof fn lemma_info_on_the_way(v: ArchiveView, s: Resharing, i: u32, prefs: LocalePreferences)
    requires
        on_the_way(v, s, prefs),
        holds::<FileInfo>(v, i),
        in_some_group(v, i),
    ensures
        reshare_info(s, i, prefs) matches Some(t) ==> {
            &&& on_the_way(v, t, prefs)
            &&& t.managed == s.managed
            &&& flagged(v, t.archive, i)
            &&& forall|k: u32| #[trigger] flagged(v, s.archive, k) ==> flagged(v, t.archive, k)
        },
{
    reveal(reshare_info);
    let info = at::<FileInfo>(s.archive, i);
    if let Some(t) = reshare_info(s, i, prefs) {
        lemma_renamed_on_the_way(v, s, info.path, prefs);
        let (r, p) = renamed_path(s, info.path)->0;
        let w = r.archive;
        // An info that was dealt with before is flagged, and so is not dealt with again.
        assert(info == at::<FileInfo>(v, i)) by {
            lemma_flag(at::<FileInfo>(v, i).flags);
        }
        let x = FileInfo { path: p, flags: info.flags.plus(INFO_IS_RESHARED), ..info };
        law_stored(w, i, x);
        let y = with(w, i, x);
        lemma_shared_flags(info.flags);
        lemma_flag(info.flags);
        let d = x.spec_desc_index(prefs);
        assert(d == info.spec_desc_index(prefs));
        assert(at::<FileInfo>(y, i) == x);
        law_stored(y, 0, at::<FileDescriptor>(y, 0));
        let method = FileLoadMethod::PackageSkip(i);
        let z = t.archive;
        assert(with_load_method(y, i, method, prefs) == Some(z));
        let old = at::<FileDescriptor>(y, d as u32);
        let new = FileDescriptor { load_method: method.raw(), ..old };
        law_stored(y, d as u32, new);
        assert(z == with(y, d as u32, new));
        lemma_reshared_path(at::<FilePath>(w, info.path));
        assert(flagged(v, z, i));
        assert forall|k: u32| #[trigger] holds::<FileInfo>(v, k) && k != i implies at::<FileInfo>(z, k)
            == at::<FileInfo>(w, k) by {}
        assert forall|k: u32| #[trigger] holds::<FileDescriptor>(v, k) && k != d implies at::<
            FileDescriptor,
        >(z, k) == at::<FileDescriptor>(w, k) by {}
        // Whatever the descriptor was before, only its load method differs from what it was at first.
        assert(holds::<FileDescriptor>(v, d as u32));
        assert(old.group == at::<FileDescriptor>(v, d as u32).group && old.file_data == at::<
            FileDescriptor,
        >(v, d as u32).file_data);
        assert(skips_to(v, z, d, i, prefs));
        assert forall|e: int| 0 <= e < count::<FileDescriptor>(v) && skips(v, w, e, prefs) implies #[trigger] skips(
            v,
            z,
            e,
            prefs,
        ) by {
            if e != d {
                let j = choose|j: u32| #[trigger] skips_to(v, w, e, j, prefs);
                assert(j != i);
                assert(holds::<FileDescriptor>(v, e as u32));
                assert(skips_to(v, z, e, j, prefs));
            }
        }
        assert forall|k: u32| #[trigger] flagged(v, s.archive, k) implies flagged(v, z, k) by {
            assert(k != i);
        }
        assert forall|k: u32| #[trigger] holds::<FileInfo>(v, k) && at::<FileInfo>(z, k) != at::<FileInfo>(
            v,
            k,
        ) implies {
            &&& flagged(v, z, k)
            &&& in_some_group(v, k)
            &&& at::<FileInfo>(z, k).entity == at::<FileInfo>(v, k).entity
            &&& at::<FileInfo>(z, k).desc == at::<FileInfo>(v, k).desc
            &&& has_copied_path(v, z, k)
            &&& 0 <= at::<FileInfo>(v, k).spec_desc_index(prefs) < count::<FileDescriptor>(v)
            &&& skips(v, z, at::<FileInfo>(v, k).spec_desc_index(prefs), prefs)
        } by {
            if k == i {
                assert(r.renamed.contains_key(info.path));
                assert(has_copied_path(v, z, k));
            } else {
                assert(at::<FileInfo>(w, k) != at::<FileInfo>(v, k));
                assert(has_copied_path(v, w, k));
            }
        }
        assert forall|e: u32| #[trigger] holds::<FileDescriptor>(v, e) && at::<FileDescriptor>(z, e)
            != at::<FileDescriptor>(v, e) implies skips(v, z, e as int, prefs) by {
            if e != d {
                assert(skips(v, w, e as int, prefs));
            }
        }
        assert forall|k: u32| #[trigger] t.renamed.contains_key(k) implies {
            let n = t.renamed[k];
            &&& holds::<FilePath>(z, k)
            &&& holds::<FilePath>(z, n)
            &&& n >= count::<FilePath>(v)
            &&& at::<FilePath>(z, n) == reshared_path(at::<FilePath>(z, k))
            &&& z.find_file_path(at::<FilePath>(z, n).spec_path()) == Some(n)
        } by {
            assert(r.renamed.contains_key(k));
        }
    }
}

proof fn lemma_run_on_the_way(v: ArchiveView, s: Resharing, start: u32, end: int, prefs: LocalePreferences)
    requires
        on_the_way(v, s, prefs),
        end <= count::<FileInfo>(v),
        forall|i: u32| start <= i < end ==> #[trigger] in_some_group(v, i),
    ensures
        reshare_run(s, start, end, prefs) matches Some(t) ==> {
            &&& on_the_way(v, t, prefs)
            &&& t.managed == s.managed
            &&& forall|i: u32| start <= i < end ==> #[trigger] flagged(v, t.archive, i)
            &&& forall|k: u32| #[trigger] flagged(v, s.archive, k) ==> flagged(v, t.archive, k)
        },
    decreases end - start,
{
    if end > start {
        lemma_run_on_the_way(v, s, start, end - 1, prefs);
        if let Some(t) = reshare_run(s, start, end - 1, prefs) {
            law_stored(s.archive, 0, at::<FileInfo>(s.archive, 0));
            let i = (end - 1) as u32;
            assert(in_some_group(v, i));
            lemma_info_on_the_way(v, t, i, prefs);
            if let Some(u) = reshare_info(t, i, prefs) {
                assert forall|k: u32| start <= k < end implies #[trigger] flagged(v, u.archive, k) by {
                    if k < end - 1 {
                        assert(flagged(v, t.archive, k));
                    }
                }
            }
        }
    }
}

/// Every info of the groups that were dealt with is flagged.
pub open spec fn managed_flagged(v: ArchiveView, s: Resharing) -> bool {
    forall|g: u32, i: u32|
        s.managed.contains(g) && at::<FileGroup>(v, g).child_start <= i < at::<FileGroup>(
            v,
            g,
        ).child_start + at::<FileGroup>(v, g).child_count ==> #[trigger] s.managed.contains(g)
            && #[trigger] flagged(v, s.archive, i)
}

proof fn lemma_packages_on_the_way(v: ArchiveView, s: Resharing, n: int, prefs: LocalePreferences)
    requires
        v.wf(),
        s == (Resharing { archive: v, renamed: Map::empty(), managed: Set::empty() }),
        0 <= n <= count::<FilePackage>(v),
    ensures
        reshare_packages(s, n, prefs) matches Some(t) ==> {
            &&& on_the_way(v, t, prefs)
            &&& managed_flagged(v, t)
            &&& forall|p: u32, i: u32|
                p < n && #[trigger] is_group_file(v, p, i) ==> flagged(v, t.archive, i)
        },
    decreases n,
{
    if n > 0 {
        lemma_packages_on_the_way(v, s, n - 1, prefs);
        if let Some(t) = reshare_packages(s, n - 1, prefs) {
            reveal(reshare_package);
            law_stored(v, 0, at::<FilePackage>(v, 0));
            law_stored(v, 0, at::<FileInfo>(v, 0));
            let p = (n - 1) as u32;
            let package = at::<FilePackage>(v, p);
            let g = at::<FileGroup>(v, package.spec_data_group()).redirection;
            let group = at::<FileGroup>(v, g);
            let t2 = Resharing { managed: t.managed.insert(g), ..t };
            let goes_on = package.spec_has_file_group() && holds::<FileGroup>(v, g)
                && !t.managed.contains(g) && has_run::<FileInfo>(v, group.child_start, group.child_count);
            if goes_on {
                assert(on_the_way(v, t2, prefs));
                assert forall|i: u32|
                    group.child_start <= i < group.child_start
                        + group.child_count implies #[trigger] in_some_group(v, i) by {
                    assert(is_group_file(v, p, i));
                }
                lemma_run_on_the_way(
                    v,
                    t2,
                    group.child_start,
                    group.child_start + group.child_count,
                    prefs,
                );
            }
            if let Some(u) = reshare_package(t, p, prefs) {
                if goes_on {
                    assert(u.managed == t.managed.insert(g));
                }
                assert(managed_flagged(v, u)) by {
                    assert forall|h: u32, i: u32|
                        u.managed.contains(h) && at::<FileGroup>(v, h).child_start <= i < at::<FileGroup>(
                            v,
                            h,
                        ).child_start + at::<FileGroup>(v, h).child_count implies #[trigger] u.managed.contains(
                        h,
                    ) && #[trigger] flagged(v, u.archive, i) by {
                        if t.managed.contains(h) {
                            assert(flagged(v, t.archive, i));
                            assert(flagged(v, t2.archive, i));
                        }
                    }
                }
                assert forall|q: u32, i: u32| q < n && #[trigger] is_group_file(v, q, i) implies flagged(
                    v,
                    u.archive,
                    i,
                ) by {
                    if q < n - 1 {
                        assert(flagged(v, t.archive, i));
                        assert(flagged(v, t2.archive, i));
                    } else {
                        assert(q == p);
                        assert(u.managed.contains(g));
                        assert(flagged(v, u.archive, i));
                    }
                }
            }
        }
    }
}

/// Giving the files of groups paths of their own, for each info `i`: an info of a group that a package
/// leads to is flagged and gets a copy of its path, which is found by the hash of the path with `.reshared`
/// behind it, and which leads where the path leads. Its descriptor in force makes packages skip to an info
/// of a group with this descriptor, which is `i` itself unless several share the descriptor. Its data and
/// its entity stay what they were, and so does all of every other info.
pub proof fn law_reshared_info(v: ArchiveView, prefs: LocalePreferences, i: u32)
    requires
        v.wf(),
        holds::<FileInfo>(v, i),
    ensures
        reshare_groups(v, prefs) matches Some(w) ==> {
            let old = at::<FileInfo>(v, i);
            let new = at::<FileInfo>(w, i);
            let d = old.spec_desc_index(prefs);
            let desc = at::<FileDescriptor>(w, d as u32);
            &&& holds::<FileInfo>(w, i)
            &&& new.entity == old.entity
            &&& new.desc == old.desc
            &&& !in_some_group(v, i) ==> new == old
            &&& in_some_group(v, i) ==> {
                &&& old.flags.bits & 0x8000_0000 == 0
                &&& new.flags.bits == old.flags.bits | 0x8000_0000
                &&& new.spec_desc_index(prefs) == d
                &&& has_copied_path(v, w, i)
                &&& 0 <= d < count::<FileDescriptor>(w)
                &&& desc.file_data == at::<FileDescriptor>(v, d as u32).file_data
                &&& desc.group == at::<FileDescriptor>(v, d as u32).group
                &&& exists|j: u32|
                    #[trigger] in_some_group(v, j) && at::<FileInfo>(v, j).spec_desc_index(prefs) == d
                        && desc.load_method == FileLoadMethod::PackageSkip(j).raw()
                &&& (forall|j: u32| #[trigger]
                    in_some_group(v, j) && at::<FileInfo>(v, j).spec_desc_index(prefs) == d ==> j == i)
                    ==> desc.load_method == FileLoadMethod::PackageSkip(i).raw() && (i < 0x100_0000
                    ==> FileLoadMethod::of_raw(desc.load_method) == FileLoadMethod::PackageSkip(i))
            }
        },
{
    if let Some(w) = reshare_groups(v, prefs) {
        let s = Resharing { archive: v, renamed: Map::empty(), managed: Set::empty() };
        lemma_packages_on_the_way(v, s, count::<FilePackage>(v) as int, prefs);
        let old = at::<FileInfo>(v, i);
        let d = old.spec_desc_index(prefs);
        if in_some_group(v, i) {
            let p = choose|p: u32| #[trigger] is_group_file(v, p, i);
            assert(flagged(v, w, i));
            lemma_flag(old.flags);
            assert(at::<FileInfo>(w, i) != old);
            lemma_shared_flags(old.flags);
            let j = choose|j: u32| #[trigger] skips_to(v, w, d, j, prefs);
            assert(skips_to(v, w, d, j, prefs));
            lemma_flag(at::<FileInfo>(v, j).flags);
            assert(at::<FileInfo>(w, j) != at::<FileInfo>(v, j));
            assert(in_some_group(v, j));
            if i < 0x100_0000 {
                law_load_method(FileLoadMethod::PackageSkip(i));
            }
        }
    }
}

/// Giving the files of groups paths of their own touches nothing else: paths that were there, packages,
/// groups, entities and data are as they were, and so is every descriptor that is not in force for an info
/// of a group.
pub proof fn law_reshared_frame(v: ArchiveView, prefs: LocalePreferences, d: u32)
    requires
        v.wf(),
    ensures
        reshare_groups(v, prefs) matches Some(w) ==> {
            &&& w.search == v.search
            &&& w.resource.file_package == v.resource.file_package
            &&& w.resource.file_package_lookup == v.resource.file_package_lookup
            &&& w.resource.file_group == v.resource.file_group
            &&& w.resource.file_package_child == v.resource.file_package_child
            &&& w.resource.file_entity == v.resource.file_entity
            &&& w.resource.file_data == v.resource.file_data
            &&& forall|k: u32| #[trigger]
                holds::<FilePath>(v, k) ==> at::<FilePath>(w, k) == at::<FilePath>(v, k)
            &&& count::<FileDescriptor>(w) == count::<FileDescriptor>(v)
            &&& holds::<FileDescriptor>(v, d) && (forall|j: u32| #[trigger]
                in_some_group(v, j) ==> at::<FileInfo>(v, j).spec_desc_index(prefs) != d) ==> at::<
                FileDescriptor,
            >(w, d) == at::<FileDescriptor>(v, d)
        },
{
    if let Some(w) = reshare_groups(v, prefs) {
        let s = Resharing { archive: v, renamed: Map::empty(), managed: Set::empty() };
        lemma_packages_on_the_way(v, s, count::<FilePackage>(v) as int, prefs);
        if skips(v, w, d as int, prefs) {
            let j = choose|j: u32| #[trigger] skips_to(v, w, d as int, j, prefs);
            assert(skips_to(v, w, d as int, j, prefs));
            lemma_flag(at::<FileInfo>(v, j).flags);
            assert(at::<FileInfo>(w, j) != at::<FileInfo>(v, j));
            assert(in_some_group(v, j));
        }
    }
}

/// Infos keep their paths, and those that stand for earlier data go on doing so.
pub open spec fn flags_stay(v: ArchiveView, w: ArchiveView) -> bool {
    &&& count::<FileInfo>(v) <= count::<FileInfo>(w)
    &&& forall|i: u32| #[trigger]
        holds::<FileInfo>(v, i) ==> at::<FileInfo>(w, i).path == at::<FileInfo>(v, i).path && (at::<FileInfo>(
            v,
            i,
        ).flags.bits & 0x8000_0000 != 0 ==> at::<FileInfo>(w, i).flags.bits & 0x8000_0000 != 0)
}

proof fn lemma_flags_transitive(u: ArchiveView, v: ArchiveView, w: ArchiveView)
    requires
        flags_stay(u, v),
        flags_stay(v, w),
    ensures
        flags_stay(u, w),
{
    assert forall|i: u32| #[trigger] holds::<FileInfo>(u, i) implies at::<FileInfo>(w, i).path == at::<
        FileInfo,
    >(u, i).path && (at::<FileInfo>(u, i).flags.bits & 0x8000_0000 != 0 ==> at::<FileInfo>(w, i).flags.bits
        & 0x8000_0000 != 0) by {
        assert(holds::<FileInfo>(v, i));
    }
}

proof fn lemma_sharing_keeps_flag(b: u32)
    ensures
        (b | 0x30_0000) & 0x8000_0000 == b & 0x8000_0000,
        (b & 0xFFCF_FFFF) & 0x8000_0000 == b & 0x8000_0000,
{
    assert((b | 0x30_0000) & 0x8000_0000 == b & 0x8000_0000 && (b & 0xFFCF_FFFF) & 0x8000_0000 == b
        & 0x8000_0000) by (bit_vector);
}

proof fn lemma_unshare_flags(v: ArchiveView, infos: Seq<(u32, u32)>, size: u32, prefs: LocalePreferences)
    requires
        v.wf(),
        infos.len() > 0,
    ensures
        unshare(v, infos, size, prefs) matches Some(w) ==> flags_stay(v, w),
{
    if can_own(v, infos) {
        lemma_owned_records(v, infos, size);
        let u = owned(v, infos, size);
        let e = count::<FileEntity>(v) as u32;
        let rest = infos.skip(1);
        lemma_followed(u, rest, rest.len() as int, e, prefs);
        if let Some(w) = follow_all(u, rest, rest.len() as int, e, prefs) {
            assert forall|i: u32| #[trigger] holds::<FileInfo>(v, i) implies at::<FileInfo>(w, i).path
                == at::<FileInfo>(v, i).path && (at::<FileInfo>(v, i).flags.bits & 0x8000_0000 != 0 ==> at::<
                FileInfo,
            >(w, i).flags.bits & 0x8000_0000 != 0) by {
                assert(holds::<FileInfo>(u, i));
                lemma_sharing_keeps_flag(at::<FileInfo>(v, i).flags.bits);
                lemma_sharing_keeps_flag(at::<FileInfo>(u, i).flags.bits);
            }
        }
    }
}

proof fn lemma_redirect_all_flags(
    v: ArchiveView,
    infos: Seq<u32>,
    n: int,
    from: u32,
    entity: u32,
    prefs: LocalePreferences,
)
    requires
        v.wf(),
    ensures
        redirect_all(v, infos, n, from, entity, prefs) matches Some(w) ==> flags_stay(v, w) && w.wf(),
    decreases n,
{
    if n > 0 {
        lemma_redirect_all_flags(v, infos, n - 1, from, entity, prefs);
        if let Some(w) = redirect_all(v, infos, n - 1, from, entity, prefs) {
            let i = infos[n - 1];
            lemma_redirect_grows(w, i, from, entity, prefs);
            reveal(redirect);
            if let Some(x) = redirect(w, i, from, entity, prefs) {
                assert(flags_stay(w, x));
                lemma_flags_transitive(v, w, x);
            }
        }
    }
}

proof fn lemma_replace_flags(s: Patching, path: Hash40, size: u32, prefs: LocalePreferences)
    requires
        s.archive.wf(),
    ensures
        replace(s, path, size, prefs) matches Some(t) ==> flags_stay(s.archive, t.archive),
{
    let v = s.archive;
    if let Some(p) = v.find_file_path(path) {
        let file_path = at::<FilePath>(v, p);
        let k = file_path.spec_path().0;
        if s.shares.unshare.contains_key(k) && s.shares.unshare[k].len() > 0 {
            lemma_unshare_flags(v, s.shares.unshare[k], size, prefs);
        } else {
            reveal(resized);
            let i = at::<FileEntity>(v, file_path.spec_entity()).info;
            if s.shares.reverse.contains_key(i) && can_copy(v, i) {
                let deps = s.shares.reverse[i];
                let u = copied(v, i);
                lemma_copied(v, i, prefs);
                assert(flags_stay(v, u));
                let from = at::<FileInfo>(v, i).entity;
                let entity = count::<FileEntity>(v) as u32;
                lemma_redirect_all_flags(u, deps, deps.len() as int, from, entity, prefs);
                if let Some(w) = redirect_all(u, deps, deps.len() as int, from, entity, prefs) {
                    lemma_flags_transitive(v, u, w);
                }
            }
        }
    }
}

proof fn lemma_replace_all_flags(s: Patching, files: Seq<(Hash40, u32)>, n: int, prefs: LocalePreferences)
    requires
        s.archive.wf(),
    ensures
        replace_all(s, files, n, prefs) matches Some(t) ==> flags_stay(s.archive, t.archive),
    decreases n,
{
    if n > 0 {
        lemma_replace_all_flags(s, files, n - 1, prefs);
        lemma_replace_all_grows(s, files, n - 1, prefs);
        if let Some(t) = replace_all(s, files, n - 1, prefs) {
            lemma_replace_flags(t, files[n - 1].0, files[n - 1].1, prefs);
            if let Some(u) = replace(t, files[n - 1].0, files[n - 1].1, prefs) {
                lemma_flags_transitive(s.archive, t.archive, u.archive);
            }
        }
    }
}

/// In a patched archive, every info of a group that a package led to stands for the data that was there: it
/// is flagged so, and has the copy of its path, which is found by the hash of the path with `.reshared` behind
/// it.
pub proof fn law_patched_reshared(
    v: ArchiveView,
    prefs: LocalePreferences,
    files: Seq<(Hash40, u32)>,
    new_files: Seq<(NewFile, Option<Hash40>)>,
    i: u32,
)
    requires
        v.wf(),
        holds::<FileInfo>(v, i),
        in_some_group(v, i),
        holds::<FilePath>(v, at::<FileInfo>(v, i).path),
    ensures
        patched(v, prefs, files, new_files) matches Some(w) ==> {
            let path = at::<FilePath>(v, at::<FileInfo>(v, i).path).spec_path();
            &&& at::<FileInfo>(w, i).flags.bits & 0x8000_0000 != 0
            &&& w.find_file_path(spec_with(path, encode_utf8(".reshared"@))) == Some(
                at::<FileInfo>(w, i).path,
            )
        },
{
    if let Some(x) = patched(v, prefs, files, new_files) {
        let u = reshare_groups(v, prefs)->0;
        let s = Patching {
            archive: u,
            shares: collected(v, package_infos(v, count::<FilePackage>(v) as int)),
        };
        law_reshare_groups_grows(v, prefs);
        law_reshared_info(v, prefs, i);
        law_reshared_frame(v, prefs, 0);
        lemma_replace_all_flags(s, files, files.len() as int, prefs);
        lemma_replace_all_grows(s, files, files.len() as int, prefs);
        let t = replace_all(s, files, files.len() as int, prefs)->0;
        law_add_files_grows(t.archive, new_files);
        lemma_added_keep_infos(t.archive, new_files);
        lemma_flag(at::<FileInfo>(v, i).flags);
        let path = at::<FilePath>(v, at::<FileInfo>(v, i).path).spec_path();
        let hash = spec_with(path, encode_utf8(".reshared"@));
        assert(holds::<FilePath>(v, at::<FileInfo>(v, i).path));
        assert(u.find_file_path(hash) is Some);
        assert(t.archive.find_file_path(hash) is Some);
        assert(holds::<FileInfo>(u, i));
        assert(holds::<FileInfo>(t.archive, i));
    }
}

} // verus!
