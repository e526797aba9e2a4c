//! What making way for a replacement does to each record.

use crate::access::{at, count, holds, law_stored, pushed, with};
use crate::archive::ArchiveView;
use crate::data::{
    law_hash_with_data_independent, law_load_method, FileData, FileDescriptor, FileEntity, FileGroup,
    FileInfo, FileInfoFlags, FileLoadMethod, FilePackage, FilePath, INFO_IS_SHARED, INFO_IS_UNKNOWN_FLAG,
};
use crate::hash40::Hash40;
use crate::load_laws::{
    lemma_copied, lemma_redirect, lemma_redirect_all, lemma_shared_flags, loading_info, moved_path, moves,
};
use crate::locale::LocalePreferences;
use crate::navigate::with_path_entity;
use crate::unshare::{
    can_copy, can_own, copied, follow_all, follow_entity, owned, redirect, redirect_all, replace, resized,
    spare, unshare, woken, Patching,
};
use vstd::prelude::*;

verus! {

proof fn lemma_sharing_flags(flags: FileInfoFlags)
    ensures
        flags.plus(INFO_IS_SHARED).plus(INFO_IS_UNKNOWN_FLAG).bits == flags.bits | 0x30_0000,
        flags.minus(INFO_IS_SHARED).minus(INFO_IS_UNKNOWN_FLAG).bits == flags.bits & 0xFFCF_FFFF,
        flags.plus(INFO_IS_SHARED).plus(INFO_IS_UNKNOWN_FLAG).plus(INFO_IS_SHARED).plus(
            INFO_IS_UNKNOWN_FLAG,
        ) == flags.plus(INFO_IS_SHARED).plus(INFO_IS_UNKNOWN_FLAG),
{
    let b = flags.bits;
    assert((b | 0x10_0000) | 0x20_0000 == b | 0x30_0000 && (b & !0x10_0000u32) & !0x20_0000u32 == b
        & 0xFFCF_FFFF && (((b | 0x10_0000) | 0x20_0000) | 0x10_0000) | 0x20_0000 == (b | 0x10_0000)
        | 0x20_0000) by (bit_vector);
}

/// Info `i` of `v` as one of several that share `entity`.
pub open spec fn follower(v: ArchiveView, i: u32, entity: u32) -> FileInfo {
    let info = at::<FileInfo>(v, i);
    FileInfo { entity, flags: FileInfoFlags { bits: info.flags.bits | 0x30_0000 }, ..info }
}

/// Is info `i` among the first `n` of the list?
pub open spec fn is_listed(infos: Seq<(u32, u32)>, n: int, i: u32) -> bool {
    exists|j: int| 0 <= j < n && (#[trigger] infos[j]).1 == i
}

/// Is descriptor `d` in force for one of the first `n` infos of the list?
pub open spec fn is_listed_desc(
    v: ArchiveView,
    infos: Seq<(u32, u32)>,
    n: int,
    d: int,
    prefs: LocalePreferences,
) -> bool {
    exists|j: int|
        0 <= j < n && at::<FileInfo>(v, (#[trigger] infos[j]).1).spec_desc_index(prefs) == d
}

/// What letting the first `n` infos of a list follow `entity` does to infos and descriptors.
pub open spec fn followed(
    v: ArchiveView,
    w: ArchiveView,
    infos: Seq<(u32, u32)>,
    n: int,
    entity: u32,
    prefs: LocalePreferences,
) -> bool {
    &&& w.wf()
    &&& count::<FileInfo>(w) == count::<FileInfo>(v)
    &&& count::<FileDescriptor>(w) == count::<FileDescriptor>(v)
    &&& w.resource.file_data == v.resource.file_data
    &&& w.resource.file_entity == v.resource.file_entity
    &&& w.resource.file_path == v.resource.file_path
    &&& w.resource.file_group == v.resource.file_group
    &&& forall|j: int| 0 <= j < n ==> holds::<FileInfo>(v, (#[trigger] infos[j]).1)
    &&& forall|j: int|
        0 <= j < n ==> at::<FileInfo>(v, (#[trigger] infos[j]).1).spec_desc_index(prefs) < count::<
            FileDescriptor,
        >(v)
    &&& forall|i: u32| #[trigger]
        holds::<FileInfo>(v, i) ==> at::<FileInfo>(w, i) == if is_listed(infos, n, i) {
            follower(v, i, entity)
        } else {
            at::<FileInfo>(v, i)
        }
    &&& forall|d: u32| #[trigger]
        holds::<FileDescriptor>(v, d) ==> at::<FileDescriptor>(w, d) == if is_listed_desc(
            v,
            infos,
            n,
            d as int,
            prefs,
        ) {
            FileDescriptor {
                load_method: FileLoadMethod::Unowned(entity).raw(),
                ..at::<FileDescriptor>(v, d)
            }
        } else {
            at::<FileDescriptor>(v, d)
        }
}

#[verifier::spinoff_prover]
pub(crate) proof fn lemma_followed(
    v: ArchiveView,
    infos: Seq<(u32, u32)>,
    n: int,
    entity: u32,
    prefs: LocalePreferences,
)
    requires
        v.wf(),
        0 <= n <= infos.len(),
    ensures
        follow_all(v, infos, n, entity, prefs) matches Some(w) ==> followed(v, w, infos, n, entity, prefs),
    decreases n,
{
    if n > 0 {
        lemma_followed(v, infos, n - 1, entity, prefs);
        if let Some(w) = follow_all(v, infos, n - 1, entity, prefs) {
            let i = infos[n - 1].1;
            reveal(follow_entity);
            if let Some(z) = follow_entity(w, i, entity, prefs) {
                let info = at::<FileInfo>(w, i);
                let first = at::<FileInfo>(v, i);
                lemma_sharing_flags(info.flags);
                lemma_sharing_flags(first.flags);
                lemma_shared_flags(info.flags);
                lemma_shared_flags(first.flags);
                assert(holds::<FileInfo>(v, i));
                let x = FileInfo {
                    entity,
                    flags: info.flags.plus(INFO_IS_SHARED).plus(INFO_IS_UNKNOWN_FLAG),
                    ..info
                };
                assert(x == follower(v, i, entity));
                law_stored(w, i, x);
                let y = with(w, i, x);
                let d = x.spec_desc_index(prefs);
                assert(d == first.spec_desc_index(prefs));
                law_stored(y, 0, at::<FileDescriptor>(y, 0));
                let old = at::<FileDescriptor>(y, d as u32);
                let new = FileDescriptor { load_method: FileLoadMethod::Unowned(entity).raw(), ..old };
                law_stored(y, d as u32, new);
                assert(z == with(y, d as u32, new));
                assert forall|k: u32| #[trigger] holds::<FileInfo>(v, k) implies at::<FileInfo>(z, k)
                    == if is_listed(infos, n, k) {
                    follower(v, k, entity)
                } else {
                    at::<FileInfo>(v, k)
                } by {
                    if k == i {
                        assert(infos[n - 1].1 == k);
                        assert(at::<FileInfo>(z, k) == x);
                    } else {
                        assert(at::<FileInfo>(z, k) == at::<FileInfo>(w, k));
                        assert(is_listed(infos, n, k) == is_listed(infos, n - 1, k));
                    }
                }
                assert forall|k: u32| #[trigger] holds::<FileDescriptor>(v, k) implies at::<FileDescriptor>(
                    z,
                    k,
                ) == if is_listed_desc(v, infos, n, k as int, prefs) {
                    FileDescriptor {
                        load_method: FileLoadMethod::Unowned(entity).raw(),
                        ..at::<FileDescriptor>(v, k)
                    }
                } else {
                    at::<FileDescriptor>(v, k)
                } by {
                    if k == d {
                        assert(at::<FileInfo>(v, infos[n - 1].1).spec_desc_index(prefs) == k);
                        assert(at::<FileDescriptor>(z, k) == new);
                    } else {
                        assert(at::<FileDescriptor>(z, k) == at::<FileDescriptor>(w, k));
                        assert(is_listed_desc(v, infos, n, k as int, prefs) == is_listed_desc(
                            v,
                            infos,
                            n - 1,
                            k as int,
                            prefs,
                        ));
                    }
                }
            }
        }
    }
}

/// Giving a path data of its own, record by record. There is a new entity for the first info of the path
/// and its package. That info points to the entity and to a new descriptor, which has new data of the given
/// size and belongs to the group of the package; it is no longer flagged as shared. The path leads to the
/// new entity. All other infos of the path point to the entity, are flagged as shared, and their
/// descriptors are loaded from the entity. All else is as it was, but that the group counts as having data.
#[verifier::spinoff_prover]
pub proof fn law_unshared_records(
    v: ArchiveView,
    infos: Seq<(u32, u32)>,
    size: u32,
    prefs: LocalePreferences,
    k: u32,
)
    requires
        v.wf(),
        infos.len() > 0,
        holds::<FileInfo>(v, infos[0].1),
        at::<FileInfo>(v, infos[0].1).flags.bits & 0x3_0000 == 0,
        forall|j: int| 0 < j < infos.len() ==> (#[trigger] infos[j]).1 != infos[0].1,
        forall|j: int|
            0 < j < infos.len() ==> at::<FileInfo>(v, (#[trigger] infos[j]).1).spec_desc_index(prefs)
                < count::<FileDescriptor>(v),
    ensures
        unshare(v, infos, size, prefs) matches Some(w) ==> {
            let (p, first) = infos[0];
            let group = at::<FilePackage>(v, p).spec_data_group();
            let e = count::<FileEntity>(v) as u32;
            let d = count::<FileDescriptor>(v) as u32;
            let f = count::<FileData>(v) as u32;
            let old = at::<FileInfo>(v, first);
            let new = at::<FileInfo>(w, first);
            &&& holds::<FileEntity>(w, e)
            &&& at::<FileEntity>(w, e) == (FileEntity { package_or_group: p, info: first })
            &&& new.path == old.path
            &&& new.entity == e
            &&& new.desc == d
            &&& new.flags.bits == old.flags.bits & 0xFFCF_FFFF
            &&& at::<FileDescriptor>(w, d).group == group
            &&& at::<FileDescriptor>(w, d).file_data == f
            &&& FileLoadMethod::of_raw(at::<FileDescriptor>(w, d).load_method) == FileLoadMethod::Owned(0)
            &&& holds::<FileData>(w, f)
            &&& at::<FileData>(w, f).decompressed_size == size
            &&& at::<FileData>(w, f).compressed_size == 0
            &&& at::<FileGroup>(w, group).compressed_size > 0
            &&& e < 0x100_0000 ==> at::<FilePath>(w, old.path).spec_entity() == e
            &&& at::<FilePath>(w, old.path).spec_path() == at::<FilePath>(v, old.path).spec_path()
            &&& holds::<FilePath>(v, k) && k != old.path ==> at::<FilePath>(w, k) == at::<FilePath>(v, k)
            &&& holds::<FileInfo>(v, k) && k != first && is_listed(infos, infos.len() as int, k) ==> {
                &&& at::<FileInfo>(w, k).entity == e
                &&& at::<FileInfo>(w, k).path == at::<FileInfo>(v, k).path
                &&& at::<FileInfo>(w, k).desc == at::<FileInfo>(v, k).desc
                &&& at::<FileInfo>(w, k).flags.bits == at::<FileInfo>(v, k).flags.bits | 0x30_0000
                &&& at::<FileDescriptor>(
                    w,
                    at::<FileInfo>(v, k).spec_desc_index(prefs) as u32,
                ).load_method == FileLoadMethod::Unowned(e).raw()
            }
            &&& holds::<FileInfo>(v, k) && !is_listed(infos, infos.len() as int, k) ==> at::<FileInfo>(w, k)
                == at::<FileInfo>(v, k)
            &&& holds::<FileDescriptor>(v, k) ==> at::<FileDescriptor>(w, k).file_data == at::<
                FileDescriptor,
            >(v, k).file_data && at::<FileDescriptor>(w, k).group == at::<FileDescriptor>(v, k).group
            &&& holds::<FileDescriptor>(v, k) && (forall|j: int|
                0 < j < infos.len() ==> at::<FileInfo>(v, (#[trigger] infos[j]).1).spec_desc_index(prefs)
                    != k) ==> at::<FileDescriptor>(w, k) == at::<FileDescriptor>(v, k)
            &&& holds::<FileEntity>(v, k) ==> at::<FileEntity>(w, k) == at::<FileEntity>(v, k)
        },
{
    if let Some(w) = unshare(v, infos, size, prefs) {
        let (p, first) = infos[0];
        let group = at::<FilePackage>(v, p).spec_data_group();
        let e = count::<FileEntity>(v) as u32;
        let d = count::<FileDescriptor>(v) as u32;
        let f = count::<FileData>(v) as u32;
        let info = at::<FileInfo>(v, first);
        let rest = infos.skip(1);
        let n = rest.len() as int;
        assert(can_own(v, infos));
        let u = owned(v, infos, size);
        lemma_owned_records(v, infos, size);
        lemma_followed(u, rest, n, e, prefs);
        law_load_method(FileLoadMethod::Owned(0));
        assert(!is_listed(rest, n, first)) by {
            if is_listed(rest, n, first) {
                let j = choose|j: int| 0 <= j < n && (#[trigger] rest[j]).1 == first;
                assert(infos[j + 1].1 == first);
            }
        }
        assert(holds::<FileInfo>(u, first));
        assert forall|j: int| 0 <= j < n implies at::<FileInfo>(u, (#[trigger] rest[j]).1) == at::<FileInfo>(
            v,
            infos[j + 1].1,
        ) && infos[j + 1] == rest[j] by {
            assert(infos[j + 1].1 != first);
            assert(holds::<FileInfo>(u, rest[j].1));
            assert(holds::<FileInfo>(v, rest[j].1));
        }
        assert(!is_listed_desc(u, rest, n, d as int, prefs)) by {
            if is_listed_desc(u, rest, n, d as int, prefs) {
                let j = choose|j: int|
                    0 <= j < n && at::<FileInfo>(u, (#[trigger] rest[j]).1).spec_desc_index(prefs) == d;
                assert(at::<FileInfo>(v, infos[j + 1].1).spec_desc_index(prefs) == d);
            }
        }
        assert(holds::<FileDescriptor>(u, d));
        if holds::<FileInfo>(v, k) && k != first {
            assert(holds::<FileInfo>(u, k));
            if is_listed(infos, infos.len() as int, k) {
                let j = choose|j: int| 0 <= j < infos.len() && (#[trigger] infos[j]).1 == k;
                assert(rest[j - 1].1 == k);
                assert(is_listed(rest, n, k));
                let dk = at::<FileInfo>(v, k).spec_desc_index(prefs);
                assert(at::<FileInfo>(u, rest[j - 1].1).spec_desc_index(prefs) == dk);
                assert(is_listed_desc(u, rest, n, dk, prefs));
                law_stored(v, 0, at::<FileDescriptor>(v, 0));
                assert(at::<FileInfo>(v, infos[j].1).spec_desc_index(prefs) < count::<FileDescriptor>(v));
                assert(holds::<FileDescriptor>(u, dk as u32));
            }
        }
        if holds::<FileInfo>(v, k) && !is_listed(infos, infos.len() as int, k) {
            assert(infos[0].1 != k);
            if is_listed(rest, n, k) {
                let j = choose|j: int| 0 <= j < n && (#[trigger] rest[j]).1 == k;
                assert(infos[j + 1].1 == k);
            }
        }
        if holds::<FileDescriptor>(v, k) {
            assert(holds::<FileDescriptor>(u, k));
            if is_listed_desc(u, rest, n, k as int, prefs) {
                let j = choose|j: int|
                    0 <= j < n && at::<FileInfo>(u, (#[trigger] rest[j]).1).spec_desc_index(prefs) == k;
                assert(at::<FileInfo>(v, infos[j + 1].1).spec_desc_index(prefs) == k);
            }
        }
    }
}

pub(crate) proof fn lemma_owned_records(v: ArchiveView, infos: Seq<(u32, u32)>, size: u32)
    requires
        v.wf(),
        can_own(v, infos),
    ensures
        ({
            let w = owned(v, infos, size);
            let (p, first) = infos[0];
            let group = at::<FilePackage>(v, p).spec_data_group();
            let e = count::<FileEntity>(v) as u32;
            let d = count::<FileDescriptor>(v) as u32;
            let f = count::<FileData>(v) as u32;
            let old = at::<FileInfo>(v, first);
            let new = at::<FileInfo>(w, first);
            &&& w.wf()
            &&& count::<FileInfo>(w) == count::<FileInfo>(v)
            &&& count::<FileDescriptor>(w) == count::<FileDescriptor>(v) + 1
            &&& count::<FileEntity>(w) == count::<FileEntity>(v) + 1
            &&& count::<FileData>(w) == count::<FileData>(v) + 1
            &&& at::<FileEntity>(w, e) == (FileEntity { package_or_group: p, info: first })
            &&& new == (FileInfo {
                path: old.path,
                entity: e,
                desc: d,
                flags: FileInfoFlags { bits: old.flags.bits & 0xFFCF_FFFF },
            })
            &&& at::<FileDescriptor>(w, d) == (FileDescriptor {
                group,
                file_data: f,
                load_method: FileLoadMethod::Owned(0).raw(),
            })
            &&& at::<FileData>(w, f) == FileData::unshared(size, 0)
            &&& at::<FileGroup>(w, group).compressed_size > 0
            &&& e < 0x100_0000 ==> at::<FilePath>(w, old.path).spec_entity() == e
            &&& at::<FilePath>(w, old.path).spec_path() == at::<FilePath>(v, old.path).spec_path()
            &&& forall|k: u32| #[trigger]
                holds::<FilePath>(v, k) && k != old.path ==> at::<FilePath>(w, k) == at::<FilePath>(v, k)
            &&& forall|k: u32| #[trigger]
                holds::<FileInfo>(v, k) && k != first ==> at::<FileInfo>(w, k) == at::<FileInfo>(v, k)
            &&& forall|k: u32| #[trigger]
                holds::<FileDescriptor>(v, k) ==> at::<FileDescriptor>(w, k) == at::<FileDescriptor>(v, k)
            &&& forall|k: u32| #[trigger]
                holds::<FileEntity>(v, k) ==> at::<FileEntity>(w, k) == at::<FileEntity>(v, k)
        }),
{
    reveal(owned);
    let (p, first) = infos[0];
    let group = at::<FilePackage>(v, p).spec_data_group();
    let data = count::<FileData>(v) as u32;
    let entity = count::<FileEntity>(v) as u32;
    let desc = count::<FileDescriptor>(v) as u32;
    let info = at::<FileInfo>(v, first);
    lemma_sharing_flags(info.flags);
    let x1 = FileData::unshared(size, 0);
    let v1 = pushed(v, x1);
    law_stored(v, 0, x1);
    let x2 = FileEntity { package_or_group: p, info: first };
    let v2 = pushed(v1, x2);
    law_stored(v1, 0, x2);
    let x3 = FileDescriptor { group, file_data: data, load_method: FileLoadMethod::Owned(0).raw() };
    let v3 = pushed(v2, x3);
    law_stored(v2, 0, x3);
    let v4 = woken(v3, group);
    law_stored(
        v3,
        group,
        FileGroup { compressed_size: 0x10, ..at::<FileGroup>(v3, group) },
    );
    let x5 = FileInfo {
        entity,
        desc,
        flags: info.flags.minus(INFO_IS_SHARED).minus(INFO_IS_UNKNOWN_FLAG),
        ..info
    };
    let v5 = with(v4, first, x5);
    law_stored(v4, first, x5);
    let path = at::<FilePath>(v5, info.path);
    let x6 = FilePath { path_and_entity: path.path_and_entity.with_data(entity), ..path };
    law_stored(v5, info.path, x6);
    if entity < 0x100_0000 {
        law_hash_with_data_independent(path.path_and_entity, Hash40(0), entity);
    }
    assert(x6.spec_path() == path.spec_path());
}

/// Descriptors of infos that were moved to another entity are loaded from it. No other descriptor changes.
proof fn lemma_redirected_descs(
    v: ArchiveView,
    infos: Seq<u32>,
    n: int,
    from: u32,
    entity: u32,
    prefs: LocalePreferences,
)
    requires
        v.wf(),
        entity < 0x100_0000,
        entity != from,
        0 <= n <= infos.len(),
    ensures
        redirect_all(v, infos, n, from, entity, prefs) matches Some(w) ==> {
            &&& w.wf()
            &&& forall|j: int|
                0 <= j < n && moves(v, #[trigger] infos[j], from) ==> {
                    let d = at::<FileInfo>(v, infos[j]).spec_desc_index(prefs);
                    &&& 0 <= d < count::<FileDescriptor>(v)
                    &&& at::<FileDescriptor>(w, d as u32).load_method == FileLoadMethod::Unowned(
                        entity,
                    ).raw()
                }
            &&& forall|d: u32| #[trigger]
                holds::<FileDescriptor>(v, d) ==> at::<FileDescriptor>(w, d) == at::<FileDescriptor>(v, d)
                    || at::<FileDescriptor>(w, d) == (FileDescriptor {
                    load_method: FileLoadMethod::Unowned(entity).raw(),
                    ..at::<FileDescriptor>(v, d)
                }) && exists|j: int|
                    0 <= j < n && moves(v, #[trigger] infos[j], from) && at::<FileInfo>(
                        v,
                        infos[j],
                    ).spec_desc_index(prefs) == d
            &&& forall|k: u32| #[trigger]
                holds::<FileInfo>(v, k) ==> at::<FileInfo>(w, k) == (FileInfo {
                    entity: at::<FileInfo>(w, k).entity,
                    ..at::<FileInfo>(v, k)
                })
        },
    decreases n,
{
    if n > 0 {
        lemma_redirected_descs(v, infos, n - 1, from, entity, prefs);
        lemma_redirect_all(v, infos, n - 1, from, entity, prefs);
        if let Some(w) = redirect_all(v, infos, n - 1, from, entity, prefs) {
            let i = infos[n - 1];
            lemma_redirect(w, i, from, entity, prefs);
            reveal(redirect);
            if let Some(z) = redirect(w, i, from, entity, prefs) {
                let info = at::<FileInfo>(w, i);
                assert(holds::<FileInfo>(v, i));
                if info.entity == from {
                    assert(moves(v, i, from));
                    let u = with_path_entity(w, info.path, entity);
                    let path = at::<FilePath>(w, info.path);
                    law_stored(
                        w,
                        info.path,
                        FilePath { path_and_entity: path.path_and_entity.with_data(entity), ..path },
                    );
                    let x = FileInfo { entity, ..info };
                    law_stored(u, i, x);
                    let y = with(u, i, x);
                    let d = x.spec_desc_index(prefs);
                    assert(d == at::<FileInfo>(v, i).spec_desc_index(prefs));
                    law_stored(y, 0, at::<FileDescriptor>(y, 0));
                    let old = at::<FileDescriptor>(y, d as u32);
                    let new = FileDescriptor {
                        load_method: FileLoadMethod::Unowned(entity).raw(),
                        ..old
                    };
                    law_stored(y, d as u32, new);
                    assert(z == with(y, d as u32, new));
                    assert forall|e: u32| #[trigger] holds::<FileDescriptor>(v, e) && e
                        != d implies at::<FileDescriptor>(z, e) == at::<FileDescriptor>(w, e) by {}
                    assert forall|e: u32| #[trigger] holds::<FileDescriptor>(v, e) implies at::<
                        FileDescriptor,
                    >(z, e) == at::<FileDescriptor>(v, e) || at::<FileDescriptor>(z, e)
                        == (FileDescriptor {
                        load_method: FileLoadMethod::Unowned(entity).raw(),
                        ..at::<FileDescriptor>(v, e)
                    }) && exists|j: int|
                        0 <= j < n && moves(v, #[trigger] infos[j], from) && at::<FileInfo>(
                            v,
                            infos[j],
                        ).spec_desc_index(prefs) == e by {
                        if e == d {
                            assert(moves(v, infos[n - 1], from));
                        } else if at::<FileDescriptor>(w, e) != at::<FileDescriptor>(v, e) {
                            let j = choose|j: int|
                                0 <= j < n - 1 && moves(v, #[trigger] infos[j], from) && at::<FileInfo>(
                                    v,
                                    infos[j],
                                ).spec_desc_index(prefs) == e;
                            assert(moves(v, infos[j], from));
                        }
                    }
                    assert forall|j: int|
                        0 <= j < n && moves(v, #[trigger] infos[j], from) implies ({
                        let e = at::<FileInfo>(v, infos[j]).spec_desc_index(prefs);
                        &&& 0 <= e < count::<FileDescriptor>(v)
                        &&& at::<FileDescriptor>(z, e as u32).load_method == FileLoadMethod::Unowned(
                            entity,
                        ).raw()
                    }) by {
                        if j < n - 1 {
                            let e = at::<FileInfo>(v, infos[j]).spec_desc_index(prefs);
                            assert(holds::<FileDescriptor>(v, e as u32));
                        }
                    }
                } else {
                    // It was moved before, or does not share with the entity at all.
                    assert forall|j: int|
                        0 <= j < n && moves(v, #[trigger] infos[j], from) implies ({
                        let e = at::<FileInfo>(v, infos[j]).spec_desc_index(prefs);
                        &&& 0 <= e < count::<FileDescriptor>(v)
                        &&& at::<FileDescriptor>(z, e as u32).load_method == FileLoadMethod::Unowned(
                            entity,
                        ).raw()
                    }) by {
                        if j == n - 1 {
                            let before = infos.subrange(0, n - 1);
                            assert(before.contains(i));
                            let m = before.index_of(i);
                            assert(infos[m] == i);
                            assert(moves(v, infos[m], from));
                        }
                    }
                }
            }
        }
    }
}

/// When the file of info `i` is about to be replaced, every info that shares with it is pointed at the
/// entity of a copy, together with its path, and its descriptor in force is loaded from that entity. The
/// copy has the path, the group and the load method of `i`, data of its own with what the data of `i` says,
/// and is flagged as standing for earlier data. Infos that do not share with `i` keep their entity, and `i`
/// is loaded by the entity that it was loaded by.
pub proof fn law_spared_records(
    v: ArchiveView,
    i: u32,
    dependents: Seq<u32>,
    prefs: LocalePreferences,
    j: int,
    k: u32,
)
    requires
        v.wf(),
        can_copy(v, i),
        count::<FileEntity>(v) < 0x100_0000,
        0 <= j < dependents.len(),
        holds::<FileInfo>(v, dependents[j]),
        holds::<FilePath>(v, at::<FileInfo>(v, dependents[j]).path),
        at::<FileInfo>(v, dependents[j]).spec_desc_index(prefs) < count::<FileDescriptor>(v),
        holds::<FileInfo>(v, k),
        !dependents.contains(k),
    ensures
        spare(v, i, dependents, prefs) matches Some(w) ==> {
            let info = at::<FileInfo>(v, i);
            let e = count::<FileEntity>(v) as u32;
            let c = count::<FileInfo>(v) as u32;
            let a = at::<FileInfo>(v, dependents[j]);
            let b = at::<FileInfo>(w, dependents[j]);
            let copy = at::<FileInfo>(w, c);
            &&& a.entity == info.entity ==> {
                &&& b.entity == e
                &&& at::<FilePath>(w, a.path).spec_entity() == e
                &&& at::<FileDescriptor>(w, a.spec_desc_index(prefs) as u32).load_method
                    == FileLoadMethod::Unowned(e).raw()
            }
            &&& a.entity != info.entity ==> b.entity == a.entity
            &&& b.path == a.path
            &&& b.desc == a.desc
            &&& b.flags == a.flags
            &&& at::<FileInfo>(w, k) == at::<FileInfo>(v, k)
            &&& holds::<FileEntity>(w, e)
            &&& at::<FileEntity>(w, e).info == c
            &&& at::<FileEntity>(w, e).package_or_group == at::<FileEntity>(
                v,
                info.entity,
            ).package_or_group
            &&& at::<FileEntity>(w, info.entity) == at::<FileEntity>(v, info.entity)
            &&& holds::<FileInfo>(w, c)
            &&& !dependents.contains(c) ==> copy.entity == e
            &&& copy.path == info.path
            &&& copy.desc == count::<FileDescriptor>(v)
            &&& copy.flags.bits == info.flags.bits | 0x8000_0000
            &&& at::<FileDescriptor>(w, copy.desc).group == at::<FileDescriptor>(v, info.desc).group
            &&& at::<FileDescriptor>(w, copy.desc).file_data == count::<FileData>(v)
            &&& (forall|m: int|
                0 <= m < dependents.len() ==> at::<FileInfo>(v, #[trigger] dependents[m]).spec_desc_index(
                    prefs,
                ) < count::<FileDescriptor>(v)) ==> at::<FileDescriptor>(w, copy.desc).load_method == at::<
                FileDescriptor,
            >(v, info.desc).load_method
            &&& at::<FileData>(w, count::<FileData>(v) as u32) == at::<FileData>(
                v,
                at::<FileDescriptor>(v, info.desc).file_data,
            )
        },
{
    let info = at::<FileInfo>(v, i);
    let from = info.entity;
    let e = count::<FileEntity>(v) as u32;
    let c = count::<FileInfo>(v) as u32;
    let u = copied(v, i);
    let len = dependents.len() as int;
    lemma_copied(v, i, prefs);
    lemma_redirect_all(u, dependents, len, from, e, prefs);
    lemma_redirected_descs(u, dependents, len, from, e, prefs);
    reveal(copied);
    if let Some(w) = redirect_all(u, dependents, len, from, e, prefs) {
        let x = dependents[j];
        assert(holds::<FileInfo>(u, x));
        assert(holds::<FileInfo>(u, k));
        assert(holds::<FileInfo>(u, c));
        let all = dependents.subrange(0, len);
        assert(all =~= dependents);
        assert(dependents.contains(x));
        assert(holds::<FileEntity>(u, e));
        assert(holds::<FileEntity>(u, from));
        assert(holds::<FileEntity>(v, from));
        assert(holds::<FileDescriptor>(u, count::<FileDescriptor>(v) as u32));
        assert(holds::<FileData>(u, count::<FileData>(v) as u32));
        assert forall|m: int|
            0 <= m < len && moves(u, #[trigger] dependents[m], from) implies holds::<FileInfo>(
            v,
            dependents[m],
        ) && at::<FileInfo>(u, dependents[m]) == at::<FileInfo>(v, dependents[m]) by {}
        if at::<FileInfo>(v, x).entity == from {
            assert(moves(u, dependents[j], from));
            assert(moved_path(u, dependents, len, from, at::<FileInfo>(v, x).path));
            assert(holds::<FilePath>(u, at::<FileInfo>(v, x).path));
        }
    }
}

/// Files that the archive does not have are left alone, and so are localized and regional ones that share
/// with no others. When a file that others share with was replaced, they are forgotten: they share with its
/// copy from then on. The size of its data is that of the replacement, and nothing else of the data changes.
pub proof fn law_replaced_owner(s: Patching, path: Hash40, size: u32, prefs: LocalePreferences)
    requires
        s.archive.wf(),
    ensures
        s.archive.find_file_path(path) is None ==> replace(s, path, size, prefs) == Some(s),
        s.archive.find_file_path(path) matches Some(p) ==> {
            let v = s.archive;
            let i = loading_info(v, p);
            let f = at::<FileDescriptor>(
                v,
                at::<FileInfo>(v, i).spec_desc_index(prefs) as u32,
            ).file_data;
            &&& s.shares.infos_of(at::<FilePath>(v, p).spec_path().0).len() == 0 ==> {
                &&& at::<FileInfo>(v, i).flags.bits & 0x3_0000 != 0 ==> replace(s, path, size, prefs)
                    is None || replace(s, path, size, prefs) == Some(s)
                &&& at::<FileInfo>(v, i).flags.bits & 0x3_0000 == 0 ==> {
                    replace(s, path, size, prefs) matches Some(t) ==> {
                        &&& t.shares.unshare == s.shares.unshare
                        &&& t.shares.reverse == s.shares.reverse.remove(i)
                        &&& !s.shares.reverse.contains_key(i) ==> {
                            &&& t.archive.search == v.search
                            &&& t.archive.resource.file_info == v.resource.file_info
                            &&& t.archive.resource.file_desc == v.resource.file_desc
                            &&& t.archive.resource.file_path == v.resource.file_path
                            &&& t.archive.resource.file_entity == v.resource.file_entity
                            &&& at::<FileData>(t.archive, f).decompressed_size == size
                            &&& at::<FileData>(t.archive, f).compressed_size == at::<FileData>(
                                v,
                                f,
                            ).compressed_size
                            &&& at::<FileData>(t.archive, f).in_group_offset == at::<FileData>(
                                v,
                                f,
                            ).in_group_offset
                            &&& at::<FileData>(t.archive, f).flags == at::<FileData>(v, f).flags
                        }
                    }
                }
            }
        },
{
    reveal(resized);
}

/// Sharing with others changes nothing about which descriptor is in force.
pub(crate) proof fn lemma_follower_desc(v: ArchiveView, i: u32, entity: u32, prefs: LocalePreferences)
    ensures
        follower(v, i, entity).spec_desc_index(prefs) == at::<FileInfo>(v, i).spec_desc_index(prefs),
{
    let info = at::<FileInfo>(v, i);
    lemma_sharing_flags(info.flags);
    lemma_shared_flags(info.flags);
    assert(follower(v, i, entity).flags == info.flags.plus(INFO_IS_SHARED).plus(INFO_IS_UNKNOWN_FLAG));
}

} // verus!
