//! What letting the files of one folder share with those of another brings about.

use crate::access::{at, count, holds, law_stored, with};
use crate::archive::{ArchiveView, ResourceView};
use crate::data::{
    law_hash_with_data_independent, FileDescriptor, FileEntity, FileInfo, FileInfoFlags, FileLoadMethod,
    FilePackage, FilePath, SearchFolder, SearchPath, INFO_SHARED_AND_UNKNOWN,
};
use crate::hash40::{spec_with, Hash40};
use crate::locale::LocalePreferences;
use crate::packages::{
    below, retarget, retarget_child, retarget_children, retarget_info, retarget_infos,
};
use crate::search_laws::walk;
use vstd::prelude::*;
use vstd::utf8::encode_utf8;

verus! {

/// Is path `p` that of the child which comes after `m` others, from child `c` on? The last child does not
/// count.
pub open spec fn is_path_of(v: ArchiveView, c: u32, m: nat, p: u32) -> bool {
    walk(v, c, m) matches Some(x) && !at::<SearchPath>(v, x).spec_is_end() && v.find_file_path(
        at::<SearchPath>(v, x).spec_path(),
    ) == Some(p)
}

/// Is path `p` that of any child from `c` on but the last?
pub open spec fn is_path_of_any(v: ArchiveView, c: u32, p: u32) -> bool {
    exists|m: nat| #[trigger] is_path_of(v, c, m, p)
}

/// The path in folder `new_parent` that has the name of the child which comes after `m` others.
pub open spec fn namesake(v: ArchiveView, c: u32, m: nat, new_parent: Hash40) -> Option<u32> {
    v.find_file_path(below(new_parent, at::<SearchPath>(v, walk(v, c, m)->0).spec_name()))
}

/// Every child with path `p` has a namesake that leads to entity `e` and is not itself the path of a child.
pub open spec fn all_lead_to(v: ArchiveView, c: u32, p: u32, new_parent: Hash40, e: u32) -> bool {
    forall|m: nat| #[trigger]
        is_path_of(v, c, m, p) ==> (namesake(v, c, m, new_parent) matches Some(t) ==> at::<FilePath>(
            v,
            t,
        ).spec_entity() == e && !is_path_of_any(v, c, t))
}

/// Only the entities of paths differ.
pub open spec fn only_entities(v: ArchiveView, w: ArchiveView) -> bool {
    &&& w.wf()
    &&& w.search == v.search
    &&& w.resource == (ResourceView { file_path: w.resource.file_path, ..v.resource })
    &&& count::<FilePath>(w) == count::<FilePath>(v)
    &&& forall|k: u32| #[trigger]
        holds::<FilePath>(v, k) ==> {
            let a = at::<FilePath>(v, k);
            let b = at::<FilePath>(w, k);
            &&& b.spec_path() == a.spec_path()
            &&& b.ext_and_version == a.ext_and_version
            &&& b.parent == a.parent
            &&& b.file_name == a.file_name
        }
}

proof fn lemma_same_walk(v: ArchiveView, w: ArchiveView, c: u32, m: nat)
    requires
        w.search == v.search,
    ensures
        walk(w, c, m) == walk(v, c, m),
    decreases m,
{
    if m > 0 {
        lemma_same_walk(v, w, c, (m - 1) as nat);
    }
}

proof fn lemma_walk_next(v: ArchiveView, c: u32, d: u32, m: nat)
    requires
        !at::<SearchPath>(v, c).spec_is_end(),
        v.follow(at::<SearchPath>(v, c).next_index()) == Some(d),
    ensures
        walk(v, c, m + 1) == walk(v, d, m),
    decreases m,
{
    assert(walk(v, c, 0) == Some(c));
    if m > 0 {
        lemma_walk_next(v, c, d, (m - 1) as nat);
    } else {
        assert(walk(v, c, 1) == Some(d));
    }
}

/// The path of a child leads where its namesake leads.
proof fn lemma_child_retargeted(v: ArchiveView, c: u32, new_parent: Hash40)
    requires
        v.wf(),
    ensures
        retarget_child(v, c, new_parent) matches Some(w) ==> {
            let child = at::<SearchPath>(v, c);
            let p = v.find_file_path(child.spec_path())->0;
            let t = v.find_file_path(below(new_parent, child.spec_name()))->0;
            &&& only_entities(v, w)
            &&& v.find_file_path(child.spec_path()) is Some
            &&& v.find_file_path(below(new_parent, child.spec_name())) is Some
            &&& at::<FilePath>(w, p).spec_entity() == at::<FilePath>(v, t).spec_entity()
            &&& forall|k: u32| #[trigger]
                holds::<FilePath>(v, k) && k != p ==> at::<FilePath>(w, k) == at::<FilePath>(v, k)
        },
{
    reveal(retarget_child);
    if let Some(w) = retarget_child(v, c, new_parent) {
        let child = at::<SearchPath>(v, c);
        let p = v.find_file_path(child.spec_path())->0;
        let t = v.find_file_path(below(new_parent, child.spec_name()))->0;
        let e = at::<FilePath>(v, t).spec_entity();
        let path = at::<FilePath>(v, p);
        law_hash_with_data_independent(path.path_and_entity, Hash40(0), e);
        law_stored(
            v,
            p,
            FilePath { path_and_entity: path.path_and_entity.with_data(e), ..path },
        );
    }
}

#[verifier::spinoff_prover]
proof fn lemma_children_retargeted(v: ArchiveView, c: u32, new_parent: Hash40, fuel: nat, p: u32, e: u32)
    requires
        v.wf(),
        holds::<FilePath>(v, p),
    ensures
        retarget_children(v, c, new_parent, fuel) matches Some(w) ==> {
            &&& only_entities(v, w)
            &&& !is_path_of_any(v, c, p) ==> at::<FilePath>(w, p) == at::<FilePath>(v, p)
            &&& is_path_of_any(v, c, p) && all_lead_to(v, c, p, new_parent, e) ==> at::<FilePath>(
                w,
                p,
            ).spec_entity() == e
        },
    decreases fuel,
{
    if let Some(w) = retarget_children(v, c, new_parent, fuel) {
        let child = at::<SearchPath>(v, c);
        assert(walk(v, c, 0) == Some(c));
        if child.spec_is_end() {
            assert forall|m: nat| !#[trigger] is_path_of(v, c, m, p) by {
                lemma_ended(v, c, m);
            }
        } else {
            lemma_child_retargeted(v, c, new_parent);
            let u = retarget_child(v, c, new_parent)->0;
            let d = u.follow(child.next_index())->0;
            assert(v.follow(child.next_index()) == Some(d));
            let first = v.find_file_path(child.spec_path())->0;
            let t = v.find_file_path(below(new_parent, child.spec_name()))->0;
            lemma_children_retargeted(u, d, new_parent, (fuel - 1) as nat, p, e);
            assert forall|h: Hash40| u.find_file_path(h) == v.find_file_path(h) by {}
            assert forall|m: nat, q: u32| #[trigger]
                is_path_of(u, d, m, q) == is_path_of(v, c, m + 1, q) by {
                lemma_same_walk(v, u, d, m);
                lemma_walk_next(v, c, d, m);
            }
            assert forall|q: u32| #[trigger] is_path_of_any(u, d, q) implies is_path_of_any(v, c, q) by {
                let m = choose|m: nat| #[trigger] is_path_of(u, d, m, q);
                assert(is_path_of(v, c, m + 1, q));
            }
            assert(is_path_of(v, c, 0, first));
            assert(is_path_of_any(v, c, first));
            if is_path_of_any(v, c, p) && !is_path_of_any(u, d, p) {
                let m = choose|m: nat| #[trigger] is_path_of(v, c, m, p);
                if m > 0 {
                    assert(is_path_of(u, d, (m - 1) as nat, p) == is_path_of(
                        v,
                        c,
                        (m - 1) as nat + 1,
                        p,
                    ));
                    assert(is_path_of_any(u, d, p));
                }
                assert(p == first);
            }
            if all_lead_to(v, c, p, new_parent, e) {
                if p == first {
                    assert(is_path_of(v, c, 0, p));
                    assert(namesake(v, c, 0, new_parent) == Some(t));
                }
                assert forall|m: nat| #[trigger] is_path_of(u, d, m, p) implies (namesake(
                    u,
                    d,
                    m,
                    new_parent,
                ) matches Some(t) ==> at::<FilePath>(u, t).spec_entity() == e && !is_path_of_any(
                    u,
                    d,
                    t,
                )) by {
                    assert(is_path_of(v, c, m + 1, p));
                    lemma_same_walk(v, u, d, m);
                    lemma_walk_next(v, c, d, m);
                    assert(namesake(u, d, m, new_parent) == namesake(v, c, m + 1, new_parent));
                    if let Some(s) = namesake(u, d, m, new_parent) {
                        assert(!is_path_of_any(v, c, s));
                        assert(holds::<FilePath>(v, s));
                    }
                }
                assert(all_lead_to(u, d, p, new_parent, e));
            }
            assert(holds::<FilePath>(u, p));
            assert(only_entities(v, w)) by {
                assert forall|k: u32| #[trigger] holds::<FilePath>(v, k) implies ({
                    let a = at::<FilePath>(v, k);
                    let b = at::<FilePath>(w, k);
                    &&& b.spec_path() == a.spec_path()
                    &&& b.ext_and_version == a.ext_and_version
                    &&& b.parent == a.parent
                    &&& b.file_name == a.file_name
                }) by {
                    assert(holds::<FilePath>(u, k));
                }
            }
        }
    }
}

proof fn lemma_ended(v: ArchiveView, c: u32, m: nat)
    requires
        at::<SearchPath>(v, c).spec_is_end(),
    ensures
        m > 0 ==> walk(v, c, m) is None,
    decreases m,
{
    if m > 0 {
        lemma_ended(v, c, (m - 1) as nat);
        assert(walk(v, c, 0) == Some(c));
    }
}

proof fn lemma_shared_desc(info: FileInfo, prefs: LocalePreferences)
    ensures
        (FileInfo { flags: info.flags.plus(INFO_SHARED_AND_UNKNOWN), ..info }).spec_desc_index(prefs)
            == info.spec_desc_index(prefs),
        info.flags.plus(INFO_SHARED_AND_UNKNOWN).bits == info.flags.bits | 0x30_0000,
{
    let b = info.flags.bits;
    assert((b | 0x30_0000) & 0x2_0000 == b & 0x2_0000 && (b | 0x30_0000) & 0x1_0000 == b & 0x1_0000)
        by (bit_vector);
}

/// Is info `i` one that lies in the folder?
pub open spec fn is_in_folder(v: ArchiveView, i: u32, parent: Hash40) -> bool {
    at::<FilePath>(v, at::<FileInfo>(v, i).path).spec_parent() == parent
}

/// The entity that the path of info `i` leads to.
pub open spec fn path_entity(v: ArchiveView, i: u32) -> u32 {
    at::<FilePath>(v, at::<FileInfo>(v, i).path).spec_entity()
}

/// A file that lies in the folder points to the entity that its path leads to, is flagged as shared, and has
/// the descriptor of the file that it shared with, but is loaded from the entity. Any other file is as it was.
pub proof fn law_retargeted_info(v: ArchiveView, i: u32, parent: Hash40, prefs: LocalePreferences)
    requires
        v.wf(),
    ensures
        retarget_info(v, i, parent, prefs) matches Some(w) ==> {
            let old = at::<FileInfo>(v, i);
            let new = at::<FileInfo>(w, i);
            let d = old.spec_desc_index(prefs);
            let shared = at::<FileInfo>(v, at::<FileEntity>(v, old.entity).info);
            let desc = at::<FileDescriptor>(w, d as u32);
            &&& w.wf()
            &&& holds::<FileInfo>(v, i)
            &&& holds::<FilePath>(v, old.path)
            &&& w.search == v.search
            &&& w.resource == (ResourceView {
                file_info: w.resource.file_info,
                file_desc: w.resource.file_desc,
                ..v.resource
            })
            &&& count::<FileInfo>(w) == count::<FileInfo>(v)
            &&& count::<FileDescriptor>(w) == count::<FileDescriptor>(v)
            &&& !is_in_folder(v, i, parent) ==> w == v
            &&& is_in_folder(v, i, parent) ==> {
                &&& new.entity == path_entity(v, i)
                &&& new.path == old.path
                &&& new.desc == old.desc
                &&& new.flags.bits == old.flags.bits | 0x30_0000
                &&& 0 <= d < count::<FileDescriptor>(v)
                &&& new.spec_desc_index(prefs) == d
                &&& desc.file_data == at::<FileDescriptor>(v, shared.desc).file_data
                &&& desc.group == at::<FileDescriptor>(v, shared.desc).group
                &&& desc.load_method == FileLoadMethod::Unowned(path_entity(v, i)).raw()
            }
            &&& forall|k: u32| #[trigger]
                holds::<FileInfo>(v, k) && k != i ==> at::<FileInfo>(w, k) == at::<FileInfo>(v, k)
            &&& forall|k: u32| #[trigger]
                holds::<FileDescriptor>(v, k) && k != d ==> at::<FileDescriptor>(w, k) == at::<
                    FileDescriptor,
                >(v, k)
        },
{
    reveal(retarget_info);
    if let Some(w) = retarget_info(v, i, parent, prefs) {
        let info = at::<FileInfo>(v, i);
        lemma_shared_desc(info, prefs);
        lemma_shared_desc(FileInfo { entity: path_entity(v, i), ..info }, prefs);
        if is_in_folder(v, i, parent) {
            let entity = path_entity(v, i);
            let shared = at::<FileEntity>(v, info.entity).info;
            let source = at::<FileInfo>(v, shared).desc;
            let d = info.spec_desc_index(prefs);
            law_stored(v, 0, at::<FileDescriptor>(v, 0));
            let x = FileDescriptor {
                load_method: FileLoadMethod::Unowned(entity).raw(),
                ..at::<FileDescriptor>(v, source)
            };
            law_stored(v, d as u32, x);
            let y = FileInfo { entity, flags: info.flags.plus(INFO_SHARED_AND_UNKNOWN), ..info };
            law_stored(with(v, d as u32, x), i, y);
            assert(w == with(with(v, d as u32, x), i, y));
            assert(at::<FileInfo>(w, i) == y);
            assert(at::<FileDescriptor>(w, d as u32) == x);
        }
    }
}

/// Descriptor `d` is in force for info `j`, which is one of `start..end` that lie in the folder, and is loaded
/// from the entity that the path of `j` leads to.
pub open spec fn is_loaded_as(
    v: ArchiveView,
    w: ArchiveView,
    start: u32,
    end: int,
    parent: Hash40,
    prefs: LocalePreferences,
    d: int,
    j: u32,
) -> bool {
    &&& start <= j < end
    &&& is_in_folder(v, j, parent)
    &&& at::<FileInfo>(v, j).spec_desc_index(prefs) == d
    &&& at::<FileDescriptor>(w, d as u32).load_method == FileLoadMethod::Unowned(path_entity(v, j)).raw()
}

/// As [`is_loaded_as`] says, for some info.
pub open spec fn is_loaded_as_any(
    v: ArchiveView,
    w: ArchiveView,
    start: u32,
    end: int,
    parent: Hash40,
    prefs: LocalePreferences,
    d: int,
) -> bool {
    exists|j: u32| #[trigger] is_loaded_as(v, w, start, end, parent, prefs, d, j)
}

#[verifier::spinoff_prover]
proof fn lemma_infos_retargeted(v: ArchiveView, start: u32, end: int, parent: Hash40, prefs: LocalePreferences)
    requires
        v.wf(),
        end <= count::<FileInfo>(v),
    ensures
        retarget_infos(v, start, end, parent, prefs) matches Some(w) ==> {
            &&& w.wf()
            &&& w.search == v.search
            &&& w.resource == (ResourceView {
                file_info: w.resource.file_info,
                file_desc: w.resource.file_desc,
                ..v.resource
            })
            &&& count::<FileInfo>(w) == count::<FileInfo>(v)
            &&& count::<FileDescriptor>(w) == count::<FileDescriptor>(v)
            &&& forall|i: u32| #[trigger]
                holds::<FileInfo>(v, i) ==> at::<FileInfo>(w, i) == if start <= i < end && is_in_folder(
                    v,
                    i,
                    parent,
                ) {
                    FileInfo {
                        entity: path_entity(v, i),
                        flags: FileInfoFlags { bits: at::<FileInfo>(v, i).flags.bits | 0x30_0000 },
                        ..at::<FileInfo>(v, i)
                    }
                } else {
                    at::<FileInfo>(v, i)
                }
            &&& forall|i: u32|
                start <= i < end && #[trigger] is_in_folder(v, i, parent) ==> is_loaded_as_any(
                    v,
                    w,
                    start,
                    end,
                    parent,
                    prefs,
                    at::<FileInfo>(v, i).spec_desc_index(prefs),
                ) && 0 <= at::<FileInfo>(v, i).spec_desc_index(prefs) < count::<FileDescriptor>(v)
            &&& forall|d: u32| #[trigger]
                holds::<FileDescriptor>(v, d) ==> at::<FileDescriptor>(w, d) == at::<FileDescriptor>(v, d)
                    || is_loaded_as_any(v, w, start, end, parent, prefs, d as int)
        },
    decreases end - start,
{
    if end > start {
        lemma_infos_retargeted(v, start, end - 1, parent, prefs);
        law_stored(v, 0, at::<FileInfo>(v, 0));
        if let Some(w) = retarget_infos(v, start, end - 1, parent, prefs) {
            let i = (end - 1) as u32;
            law_retargeted_info(w, i, parent, prefs);
            if let Some(x) = retarget_info(w, i, parent, prefs) {
                assert(holds::<FileInfo>(v, i));
                assert(at::<FileInfo>(w, i) == at::<FileInfo>(v, i));
                let d = at::<FileInfo>(v, i).spec_desc_index(prefs);
                law_stored(w, 0, at::<FileDescriptor>(w, 0));
                assert(is_in_folder(w, i, parent) == is_in_folder(v, i, parent));
                assert(path_entity(w, i) == path_entity(v, i));
                if is_in_folder(v, i, parent) {
                    assert(is_loaded_as(v, x, start, end, parent, prefs, d, i));
                }
                assert forall|e: int|
                    0 <= e < count::<FileDescriptor>(v) && is_loaded_as_any(
                        v,
                        w,
                        start,
                        end - 1,
                        parent,
                        prefs,
                        e,
                    ) implies #[trigger] is_loaded_as_any(v, x, start, end, parent, prefs, e) by {
                    let j = choose|j: u32| #[trigger]
                        is_loaded_as(v, w, start, end - 1, parent, prefs, e, j);
                    assert(holds::<FileDescriptor>(w, e as u32));
                    if e != d || !is_in_folder(v, i, parent) {
                        assert(is_loaded_as(v, x, start, end, parent, prefs, e, j));
                    }
                }
                assert forall|k: u32| #[trigger] holds::<FileInfo>(v, k) implies at::<FileInfo>(x, k)
                    == if start <= k < end && is_in_folder(v, k, parent) {
                    FileInfo {
                        entity: path_entity(v, k),
                        flags: FileInfoFlags { bits: at::<FileInfo>(v, k).flags.bits | 0x30_0000 },
                        ..at::<FileInfo>(v, k)
                    }
                } else {
                    at::<FileInfo>(v, k)
                } by {
                    assert(holds::<FileInfo>(w, k));
                }
                assert forall|k: u32| #[trigger] holds::<FileDescriptor>(v, k) implies at::<FileDescriptor>(
                    x,
                    k,
                ) == at::<FileDescriptor>(v, k) || is_loaded_as_any(
                    v,
                    x,
                    start,
                    end,
                    parent,
                    prefs,
                    k as int,
                ) by {
                    assert(holds::<FileDescriptor>(w, k));
                }
            }
        }
    }
}

/// Letting the files of folder `parent` share with those of folder `new_parent`, in general. The path of a
/// child of `parent`, but for the last, leads where the path of the same name in `new_parent` leads, unless
/// two of its children have one path or the folders overlap. All other paths lead where they led. Every info
/// of the package whose path lies in `parent` points to the entity of its path, is flagged as shared, and its
/// descriptor in force is loaded from that entity, unless two of these infos have one descriptor. All other
/// infos are as they were.
pub proof fn law_retargeted(
    v: ArchiveView,
    package: Hash40,
    parent: Hash40,
    new_parent: Hash40,
    prefs: LocalePreferences,
    p: u32,
    e: u32,
    i: u32,
)
    requires
        v.wf(),
        holds::<FilePath>(v, p),
        holds::<FileInfo>(v, i),
    ensures
        retarget(v, package, parent, new_parent, prefs) matches Some(w) ==> {
            let c = v.follow(at::<SearchFolder>(v, v.find_search_folder(parent)->0).first_child_index)->0;
            let record = at::<FilePackage>(v, v.find_file_package(package)->0);
            let end = record.info_start + record.info_count;
            let folder = spec_with(parent, encode_utf8("/"@));
            let old = at::<FileInfo>(v, i);
            let new = at::<FileInfo>(w, i);
            let d = old.spec_desc_index(prefs);
            let inside = record.info_start <= i < end && at::<FilePath>(w, old.path).spec_parent() == folder;
            &&& v.find_search_folder(parent) is Some
            &&& v.find_file_package(package) is Some
            &&& at::<FilePath>(w, p).spec_path() == at::<FilePath>(v, p).spec_path()
            &&& !is_path_of_any(v, c, p) ==> at::<FilePath>(w, p) == at::<FilePath>(v, p)
            &&& is_path_of_any(v, c, p) && all_lead_to(v, c, p, new_parent, e) ==> at::<FilePath>(
                w,
                p,
            ).spec_entity() == e
            &&& new.path == old.path
            &&& new.desc == old.desc
            &&& !inside ==> new == old
            &&& inside ==> {
                &&& new.entity == at::<FilePath>(w, old.path).spec_entity()
                &&& new.flags.bits == old.flags.bits | 0x30_0000
                &&& (forall|j: u32|
                    record.info_start <= j < end && #[trigger] at::<FileInfo>(v, j).spec_desc_index(prefs)
                        == d ==> j == i) ==> at::<FileDescriptor>(w, d as u32).load_method
                    == FileLoadMethod::Unowned(new.entity).raw()
            }
            &&& w.search == v.search
            &&& w.resource.file_entity == v.resource.file_entity
            &&& w.resource.file_data == v.resource.file_data
            &&& w.resource.file_package == v.resource.file_package
        },
{
    if let Some(w) = retarget(v, package, parent, new_parent, prefs) {
        let c = v.follow(at::<SearchFolder>(v, v.find_search_folder(parent)->0).first_child_index)->0;
        let fuel = count::<SearchPath>(v);
        lemma_children_retargeted(v, c, new_parent, fuel, p, e);
        let u = retarget_children(v, c, new_parent, fuel)->0;
        let record = at::<FilePackage>(u, u.find_file_package(package)->0);
        let start = record.info_start;
        let end = record.info_start + record.info_count;
        let folder = spec_with(parent, encode_utf8("/"@));
        lemma_infos_retargeted(u, start, end, folder, prefs);
        let old = at::<FileInfo>(v, i);
        let d = old.spec_desc_index(prefs);
        assert(holds::<FileInfo>(u, i));
        if start <= i < end && is_in_folder(u, i, folder) {
            assert(is_loaded_as_any(u, w, start, end, folder, prefs, d));
            let j = choose|j: u32| #[trigger] is_loaded_as(u, w, start, end, folder, prefs, d, j);
            assert(at::<FileInfo>(v, j).spec_desc_index(prefs) == d);
        }
    }
}

} // verus!
