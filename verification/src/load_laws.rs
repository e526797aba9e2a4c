//! What a path leads to after patching.

use crate::access::{at, count, holds, law_stored, pushed, with};
use crate::add_files::{add_file, NewFile};
use crate::archive::ArchiveView;
use crate::data::{
    law_hash_with_data_independent, law_info_flags, law_non_localized_desc, FileData, FileDescriptor,
    FileEntity, FileGroup, FileInfo, FileInfoFlags, FileLoadMethod, FilePackage, FilePath,
    INFO_IS_GRAPHICS_ARCHIVE, INFO_IS_LOCALIZED, INFO_IS_REGIONAL, INFO_IS_RESHARED, INFO_IS_SHARED,
    INFO_IS_UNKNOWN_FLAG, INFO_LOCALIZED_OR_REGIONAL,
};
use crate::hash40::Hash40;
use crate::locale::LocalePreferences;
use crate::lookup::law_insert_file_path;
use crate::navigate::with_path_entity;
use crate::reshare::with_load_method;
use crate::unshare::{
    can_copy, can_own, copied, follow_all, follow_entity, owned, redirect, redirect_all, replace,
    replace_owner, resized, spare, unshare, woken, Patching,
};
use vstd::prelude::*;

verus! {

/// The info that the file of path `p` is loaded by.
pub open spec fn loading_info(v: ArchiveView, p: u32) -> u32 {
    at::<FileEntity>(v, at::<FilePath>(v, p).spec_entity()).info
}

/// Index of the data that path `p` leads to: over its entity, the info that loads it and the
/// descriptor in force. `None` if a record on the way is not there.
pub open spec fn data_index(v: ArchiveView, p: u32, prefs: LocalePreferences) -> Option<u32> {
    let e = at::<FilePath>(v, p).spec_entity();
    let i = loading_info(v, p);
    let d = at::<FileInfo>(v, i).spec_desc_index(prefs);
    let f = at::<FileDescriptor>(v, d as u32).file_data;
    if holds::<FilePath>(v, p) && holds::<FileEntity>(v, e) && holds::<FileInfo>(v, i) && d < count::<
        FileDescriptor,
    >(v) && holds::<FileData>(v, f) {
        Some(f)
    } else {
        None
    }
}

/// All data of `v` but the record `f` is as it was.
pub open spec fn same_data_but(v: ArchiveView, w: ArchiveView, f: Option<u32>) -> bool {
    forall|k: u32| #[trigger]
        holds::<FileData>(v, k) && Some(k) != f ==> holds::<FileData>(w, k) && at::<FileData>(w, k)
            == at::<FileData>(v, k)
}

/// Only paths, the entities and flags of infos, and load methods may differ.
pub open spec fn rerouted(v: ArchiveView, w: ArchiveView) -> bool {
    &&& w.wf()
    &&& count::<FilePath>(w) == count::<FilePath>(v)
    &&& count::<FileInfo>(w) == count::<FileInfo>(v)
    &&& count::<FileEntity>(w) == count::<FileEntity>(v)
    &&& count::<FileDescriptor>(w) == count::<FileDescriptor>(v)
    &&& count::<FileData>(w) == count::<FileData>(v)
    &&& forall|k: u32| #[trigger]
        holds::<FileData>(v, k) ==> at::<FileData>(w, k) == at::<FileData>(v, k)
    &&& forall|k: u32| #[trigger]
        holds::<FileEntity>(v, k) ==> at::<FileEntity>(w, k) == at::<FileEntity>(v, k)
    &&& forall|k: u32| #[trigger]
        holds::<FileDescriptor>(v, k) ==> at::<FileDescriptor>(w, k).file_data == at::<FileDescriptor>(
            v,
            k,
        ).file_data
    &&& forall|k: u32| #[trigger]
        holds::<FileInfo>(v, k) ==> at::<FileInfo>(w, k).desc == at::<FileInfo>(v, k).desc && at::<
            FileInfo,
        >(w, k).path == at::<FileInfo>(v, k).path && at::<FileInfo>(w, k).flags.has(INFO_IS_REGIONAL)
            == at::<FileInfo>(v, k).flags.has(INFO_IS_REGIONAL) && at::<FileInfo>(w, k).flags.has(
            INFO_IS_LOCALIZED,
        ) == at::<FileInfo>(v, k).flags.has(INFO_IS_LOCALIZED)
}

/// All paths lead to the entities that they led to.
pub open spec fn same_entities(v: ArchiveView, w: ArchiveView) -> bool {
    forall|k: u32| #[trigger]
        holds::<FilePath>(v, k) ==> at::<FilePath>(w, k).spec_entity() == at::<FilePath>(
            v,
            k,
        ).spec_entity()
}

pub(crate) proof fn lemma_rerouted_transitive(u: ArchiveView, v: ArchiveView, w: ArchiveView)
    requires
        rerouted(u, v),
        rerouted(v, w),
    ensures
        rerouted(u, w),
{
    assert forall|k: u32| #[trigger] holds::<FileData>(u, k) implies at::<FileData>(w, k) == at::<
        FileData,
    >(u, k) by {
        assert(holds::<FileData>(v, k));
    }
    assert forall|k: u32| #[trigger] holds::<FileEntity>(u, k) implies at::<FileEntity>(w, k) == at::<
        FileEntity,
    >(u, k) by {
        assert(holds::<FileEntity>(v, k));
    }
    assert forall|k: u32| #[trigger] holds::<FileDescriptor>(u, k) implies at::<FileDescriptor>(
        w,
        k,
    ).file_data == at::<FileDescriptor>(u, k).file_data by {
        assert(holds::<FileDescriptor>(v, k));
    }
    assert forall|k: u32| #[trigger] holds::<FileInfo>(u, k) implies at::<FileInfo>(w, k).desc == at::<
        FileInfo,
    >(u, k).desc && at::<FileInfo>(w, k).path == at::<FileInfo>(u, k).path && at::<FileInfo>(
        w,
        k,
    ).flags.has(INFO_IS_REGIONAL) == at::<FileInfo>(u, k).flags.has(INFO_IS_REGIONAL) && at::<FileInfo>(
        w,
        k,
    ).flags.has(INFO_IS_LOCALIZED) == at::<FileInfo>(u, k).flags.has(INFO_IS_LOCALIZED) by {
        assert(holds::<FileInfo>(v, k));
    }
}

/// Where only the routes differ, a path with the same entity leads to the same data.
pub(crate) proof fn lemma_same_route(v: ArchiveView, w: ArchiveView, p: u32, prefs: LocalePreferences)
    requires
        rerouted(v, w),
        holds::<FilePath>(v, p) ==> at::<FilePath>(w, p).spec_entity() == at::<FilePath>(
            v,
            p,
        ).spec_entity(),
    ensures
        data_index(v, p, prefs) matches Some(f) ==> data_index(w, p, prefs) == Some(f) && at::<FileData>(
            w,
            f,
        ) == at::<FileData>(v, f),
{
    if let Some(f) = data_index(v, p, prefs) {
        let e = at::<FilePath>(v, p).spec_entity();
        let i = loading_info(v, p);
        assert(holds::<FileEntity>(v, e));
        assert(holds::<FileInfo>(v, i));
        let d = at::<FileInfo>(v, i).spec_desc_index(prefs);
        law_stored(w, 0, at::<FileDescriptor>(w, 0));
        assert(holds::<FileDescriptor>(v, d as u32));
        assert(holds::<FileData>(v, f));
    }
}

pub(crate) proof fn lemma_load_method_rerouted(
    v: ArchiveView,
    i: u32,
    m: FileLoadMethod,
    prefs: LocalePreferences,
)
    requires
        v.wf(),
    ensures
        with_load_method(v, i, m, prefs) matches Some(w) ==> rerouted(v, w) && same_entities(v, w),
{
    let d = at::<FileInfo>(v, i).spec_desc_index(prefs);
    law_stored(v, 0, at::<FileDescriptor>(v, 0));
    if 0 <= d < count::<FileDescriptor>(v) {
        let desc = at::<FileDescriptor>(v, d as u32);
        law_stored(v, d as u32, FileDescriptor { load_method: m.raw(), ..desc });
    }
}

pub(crate) proof fn lemma_shared_flags(flags: FileInfoFlags)
    ensures
        flags.plus(INFO_IS_SHARED).plus(INFO_IS_UNKNOWN_FLAG).has(INFO_IS_REGIONAL) == flags.has(
            INFO_IS_REGIONAL,
        ),
        flags.plus(INFO_IS_SHARED).plus(INFO_IS_UNKNOWN_FLAG).has(INFO_IS_LOCALIZED) == flags.has(
            INFO_IS_LOCALIZED,
        ),
        flags.minus(INFO_IS_SHARED).minus(INFO_IS_UNKNOWN_FLAG).has(INFO_LOCALIZED_OR_REGIONAL)
            == flags.has(INFO_LOCALIZED_OR_REGIONAL),
        flags.plus(INFO_IS_RESHARED).has(INFO_LOCALIZED_OR_REGIONAL) == flags.has(
            INFO_LOCALIZED_OR_REGIONAL,
        ),
        flags.plus(INFO_IS_RESHARED).has(INFO_IS_REGIONAL) == flags.has(INFO_IS_REGIONAL),
        flags.plus(INFO_IS_RESHARED).has(INFO_IS_LOCALIZED) == flags.has(INFO_IS_LOCALIZED),
{
    assert(INFO_IS_SHARED & INFO_IS_REGIONAL == 0 && INFO_IS_UNKNOWN_FLAG & INFO_IS_REGIONAL == 0
        && INFO_IS_SHARED & INFO_IS_LOCALIZED == 0 && INFO_IS_UNKNOWN_FLAG & INFO_IS_LOCALIZED == 0
        && INFO_IS_SHARED & INFO_LOCALIZED_OR_REGIONAL == 0 && INFO_IS_UNKNOWN_FLAG
        & INFO_LOCALIZED_OR_REGIONAL == 0 && INFO_IS_RESHARED & INFO_LOCALIZED_OR_REGIONAL == 0
        && INFO_IS_RESHARED & INFO_IS_REGIONAL == 0 && INFO_IS_RESHARED & INFO_IS_LOCALIZED == 0)
        by (bit_vector);
    law_info_flags(flags, INFO_IS_RESHARED, INFO_IS_REGIONAL);
    law_info_flags(flags, INFO_IS_RESHARED, INFO_IS_LOCALIZED);
    law_info_flags(flags, INFO_IS_SHARED, INFO_IS_REGIONAL);
    law_info_flags(flags.plus(INFO_IS_SHARED), INFO_IS_UNKNOWN_FLAG, INFO_IS_REGIONAL);
    law_info_flags(flags, INFO_IS_SHARED, INFO_IS_LOCALIZED);
    law_info_flags(flags.plus(INFO_IS_SHARED), INFO_IS_UNKNOWN_FLAG, INFO_IS_LOCALIZED);
    law_info_flags(flags, INFO_IS_SHARED, INFO_LOCALIZED_OR_REGIONAL);
    law_info_flags(flags.minus(INFO_IS_SHARED), INFO_IS_UNKNOWN_FLAG, INFO_LOCALIZED_OR_REGIONAL);
    law_info_flags(flags, INFO_IS_RESHARED, INFO_LOCALIZED_OR_REGIONAL);
}

proof fn lemma_follow_entity_rerouted(v: ArchiveView, i: u32, entity: u32, prefs: LocalePreferences)
    requires
        v.wf(),
    ensures
        follow_entity(v, i, entity, prefs) matches Some(w) ==> rerouted(v, w) && same_entities(v, w),
{
    reveal(follow_entity);
    if holds::<FileInfo>(v, i) {
        let info = at::<FileInfo>(v, i);
        let x = FileInfo {
            entity,
            flags: info.flags.plus(INFO_IS_SHARED).plus(INFO_IS_UNKNOWN_FLAG),
            ..info
        };
        lemma_shared_flags(info.flags);
        law_stored(v, i, x);
        let w = with(v, i, x);
        assert(rerouted(v, w));
        lemma_load_method_rerouted(w, i, FileLoadMethod::Unowned(entity), prefs);
        if let Some(y) = with_load_method(w, i, FileLoadMethod::Unowned(entity), prefs) {
            lemma_rerouted_transitive(v, w, y);
        }
    }
}

proof fn lemma_follow_all_rerouted(
    v: ArchiveView,
    infos: Seq<(u32, u32)>,
    n: int,
    entity: u32,
    prefs: LocalePreferences,
)
    requires
        v.wf(),
    ensures
        follow_all(v, infos, n, entity, prefs) matches Some(w) ==> rerouted(v, w) && same_entities(v, w),
    decreases n,
{
    if n > 0 {
        lemma_follow_all_rerouted(v, infos, n - 1, entity, prefs);
        if let Some(w) = follow_all(v, infos, n - 1, entity, prefs) {
            lemma_follow_entity_rerouted(w, infos[n - 1].1, entity, prefs);
            if let Some(x) = follow_entity(w, infos[n - 1].1, entity, prefs) {
                lemma_rerouted_transitive(v, w, x);
                assert forall|k: u32| #[trigger] holds::<FilePath>(v, k) implies at::<FilePath>(
                    x,
                    k,
                ).spec_entity() == at::<FilePath>(v, k).spec_entity() by {
                    assert(holds::<FilePath>(w, k));
                }
            }
        }
    }
}

proof fn lemma_owned_loads(v: ArchiveView, infos: Seq<(u32, u32)>, size: u32, prefs: LocalePreferences)
    requires
        v.wf(),
        can_own(v, infos),
        count::<FileEntity>(v) < 0x100_0000,
        !at::<FileInfo>(v, infos[0].1).flags.has(INFO_LOCALIZED_OR_REGIONAL),
    ensures
        owned(v, infos, size).wf(),
        ({
            let w = owned(v, infos, size);
            let p = at::<FileInfo>(v, infos[0].1).path;
            let f = count::<FileData>(v) as u32;
            &&& data_index(w, p, prefs) == Some(f)
            &&& at::<FileData>(w, f) == FileData::unshared(size, 0)
            &&& loading_info(w, p) == infos[0].1
            &&& same_data_but(v, w, None)
        }),
{
    reveal(owned);
    let (p, first) = infos[0];
    let group = at::<FilePackage>(v, p).spec_data_group();
    let data = count::<FileData>(v) as u32;
    let entity = count::<FileEntity>(v) as u32;
    let desc = count::<FileDescriptor>(v) as u32;
    let info = at::<FileInfo>(v, first);
    let x1 = FileData::unshared(size, 0);
    let v1 = pushed(v, x1);
    law_stored(v, 0, x1);
    let x2 = FileEntity { package_or_group: p, info: first };
    let v2 = pushed(v1, x2);
    law_stored(v1, 0, x2);
    let x3 = FileDescriptor { group, file_data: data, load_method: FileLoadMethod::Owned(0).raw() };
    let v3 = pushed(v2, x3);
    law_stored(v2, 0, x3);
    let v4 = woken(v3, group);
    law_stored(
        v3,
        group,
        FileGroup { compressed_size: 0x10, ..at::<FileGroup>(v3, group) },
    );
    let x5 = FileInfo {
        entity,
        desc,
        flags: info.flags.minus(INFO_IS_SHARED).minus(INFO_IS_UNKNOWN_FLAG),
        ..info
    };
    lemma_shared_flags(info.flags);
    law_non_localized_desc(x5, prefs);
    let v5 = with(v4, first, x5);
    law_stored(v4, first, x5);
    let path = at::<FilePath>(v5, info.path);
    let x6 = FilePath { path_and_entity: path.path_and_entity.with_data(entity), ..path };
    law_stored(v5, info.path, x6);
    law_hash_with_data_independent(path.path_and_entity, Hash40(0), entity);
}

/// A path that was given data of its own leads to that data, and no data that was there has changed.
pub proof fn law_unshared_loads(
    v: ArchiveView,
    infos: Seq<(u32, u32)>,
    size: u32,
    prefs: LocalePreferences,
)
    requires
        v.wf(),
        infos.len() > 0,
        count::<FileEntity>(v) < 0x100_0000,
        holds::<FileInfo>(v, infos[0].1),
        !at::<FileInfo>(v, infos[0].1).flags.has(INFO_LOCALIZED_OR_REGIONAL),
    ensures
        unshare(v, infos, size, prefs) matches Some(w) ==> {
            let p = at::<FileInfo>(v, infos[0].1).path;
            let f = count::<FileData>(v) as u32;
            &&& data_index(w, p, prefs) == Some(f)
            &&& at::<FileData>(w, f) == FileData::unshared(size, 0)
            &&& loading_info(w, p) == infos[0].1
            &&& same_data_but(v, w, None)
        },
{
    if can_own(v, infos) {
        lemma_owned_loads(v, infos, size, prefs);
        let w = owned(v, infos, size);
        let e = count::<FileEntity>(v) as u32;
        lemma_follow_all_rerouted(w, infos.skip(1), infos.len() - 1, e, prefs);
        if let Some(x) = follow_all(w, infos.skip(1), infos.len() - 1, e, prefs) {
            let p = at::<FileInfo>(v, infos[0].1).path;
            lemma_same_route(w, x, p, prefs);
            assert(holds::<FilePath>(w, p));
            assert(holds::<FileEntity>(w, at::<FilePath>(w, p).spec_entity()));
            assert forall|k: u32| #[trigger] holds::<FileData>(v, k) implies holds::<FileData>(x, k)
                && at::<FileData>(x, k) == at::<FileData>(v, k) by {
                assert(holds::<FileData>(w, k));
            }
        }
    }
}

/// Is info `d` one of those that `redirect` moves away from `from`?
pub open spec fn moves(v: ArchiveView, d: u32, from: u32) -> bool {
    holds::<FileInfo>(v, d) && at::<FileInfo>(v, d).entity == from
}

/// Is path `x` the path of one of the first `n` infos that are moved away from `from`?
pub open spec fn moved_path(v: ArchiveView, infos: Seq<u32>, n: int, from: u32, x: u32) -> bool {
    exists|j: int|
        0 <= j < n && moves(v, #[trigger] infos[j], from) && at::<FileInfo>(v, infos[j]).path == x
}

/// What moving the first `n` infos from one entity to another does to paths and infos.
pub open spec fn moved(
    v: ArchiveView,
    w: ArchiveView,
    infos: Seq<u32>,
    n: int,
    from: u32,
    entity: u32,
) -> bool {
    &&& rerouted(v, w)
    &&& forall|x: u32| #[trigger]
        holds::<FilePath>(v, x) ==> at::<FilePath>(w, x).spec_entity() == if moved_path(
            v,
            infos,
            n,
            from,
            x,
        ) {
            entity
        } else {
            at::<FilePath>(v, x).spec_entity()
        }
    &&& forall|k: u32| #[trigger]
        holds::<FileInfo>(v, k) ==> at::<FileInfo>(w, k).entity == if moves(v, k, from)
            && infos.subrange(0, n).contains(k) {
            entity
        } else {
            at::<FileInfo>(v, k).entity
        }
}

pub(crate) proof fn lemma_redirect(v: ArchiveView, i: u32, from: u32, entity: u32, prefs: LocalePreferences)
    requires
        v.wf(),
        entity < 0x100_0000,
    ensures
        redirect(v, i, from, entity, prefs) matches Some(w) ==> {
            &&& rerouted(v, w)
            &&& holds::<FileInfo>(v, i)
            &&& at::<FileInfo>(v, i).entity == from ==> holds::<FilePath>(v, at::<FileInfo>(v, i).path)
            &&& forall|x: u32| #[trigger]
                holds::<FilePath>(v, x) ==> at::<FilePath>(w, x).spec_entity() == if at::<FileInfo>(
                    v,
                    i,
                ).entity == from && x == at::<FileInfo>(v, i).path {
                    entity
                } else {
                    at::<FilePath>(v, x).spec_entity()
                }
            &&& forall|k: u32| #[trigger]
                holds::<FileInfo>(v, k) ==> at::<FileInfo>(w, k).entity == if at::<FileInfo>(
                    v,
                    i,
                ).entity == from && k == i {
                    entity
                } else {
                    at::<FileInfo>(v, k).entity
                }
        },
{
    reveal(redirect);
    let info = at::<FileInfo>(v, i);
    if holds::<FileInfo>(v, i) && holds::<FilePath>(v, info.path) && info.entity == from {
        let path = at::<FilePath>(v, info.path);
        let y = FilePath { path_and_entity: path.path_and_entity.with_data(entity), ..path };
        law_stored(v, info.path, y);
        law_hash_with_data_independent(path.path_and_entity, Hash40(0), entity);
        let v1 = with_path_entity(v, info.path, entity);
        let x = FileInfo { entity, ..info };
        law_stored(v1, i, x);
        let v2 = with(v1, i, x);
        assert(rerouted(v, v2));
        lemma_load_method_rerouted(v2, i, FileLoadMethod::Unowned(entity), prefs);
        if let Some(w) = with_load_method(v2, i, FileLoadMethod::Unowned(entity), prefs) {
            lemma_rerouted_transitive(v, v2, w);
            assert(w.resource.file_info == v2.resource.file_info);
            assert forall|x: u32| #[trigger] holds::<FilePath>(v, x) implies at::<FilePath>(
                w,
                x,
            ).spec_entity() == if x == info.path {
                entity
            } else {
                at::<FilePath>(v, x).spec_entity()
            } by {
                assert(holds::<FilePath>(v2, x));
            }
        }
    }
}

pub(crate) proof fn lemma_redirect_all(
    v: ArchiveView,
    infos: Seq<u32>,
    n: int,
    from: u32,
    entity: u32,
    prefs: LocalePreferences,
)
    requires
        v.wf(),
        entity < 0x100_0000,
        entity != from,
        0 <= n <= infos.len(),
    ensures
        redirect_all(v, infos, n, from, entity, prefs) matches Some(w) ==> moved(
            v,
            w,
            infos,
            n,
            from,
            entity,
        ) && forall|j: int| 0 <= j < n ==> holds::<FileInfo>(v, #[trigger] infos[j]),
    decreases n,
{
    if n > 0 {
        lemma_redirect_all(v, infos, n - 1, from, entity, prefs);
        if let Some(w) = redirect_all(v, infos, n - 1, from, entity, prefs) {
            let i = infos[n - 1];
            lemma_redirect(w, i, from, entity, prefs);
            if let Some(x) = redirect(w, i, from, entity, prefs) {
                lemma_rerouted_transitive(v, w, x);
                assert(holds::<FileInfo>(v, i));
                let before = infos.subrange(0, n - 1);
                let after = infos.subrange(0, n);
                assert(after =~= before.push(i));
                // Whether this info is moved now or was before, it is one of those that are moved.
                assert(at::<FileInfo>(w, i).entity == from ==> moves(v, i, from) && !before.contains(i));
                assert forall|k: u32| #[trigger] holds::<FileInfo>(v, k) implies at::<FileInfo>(
                    x,
                    k,
                ).entity == if moves(v, k, from) && after.contains(k) {
                    entity
                } else {
                    at::<FileInfo>(v, k).entity
                } by {
                    assert(holds::<FileInfo>(w, k));
                    assert(after.contains(k) <==> before.contains(k) || k == i) by {
                        assert(after[n - 1] == i);
                        if before.contains(k) {
                            let j = before.index_of(k);
                            assert(after[j] == k);
                        }
                        if after.contains(k) && k != i {
                            let j = after.index_of(k);
                            assert(before[j] == k);
                        }
                    }
                }
                assert forall|y: u32| #[trigger] holds::<FilePath>(v, y) implies at::<FilePath>(
                    x,
                    y,
                ).spec_entity() == if moved_path(v, infos, n, from, y) {
                    entity
                } else {
                    at::<FilePath>(v, y).spec_entity()
                } by {
                    assert(holds::<FilePath>(w, y));
                    if moved_path(v, infos, n - 1, from, y) {
                        let j = choose|j: int|
                            0 <= j < n - 1 && moves(v, #[trigger] infos[j], from) && at::<FileInfo>(
                                v,
                                infos[j],
                            ).path == y;
                        assert(moves(v, infos[j], from));
                        assert(moved_path(v, infos, n, from, y));
                    }
                    if moved_path(v, infos, n, from, y) && !moved_path(v, infos, n - 1, from, y) {
                        let j = choose|j: int|
                            0 <= j < n && moves(v, #[trigger] infos[j], from) && at::<FileInfo>(
                                v,
                                infos[j],
                            ).path == y;
                        assert(j == n - 1);
                        assert(!before.contains(i)) by {
                            if before.contains(i) {
                                let m = before.index_of(i);
                                assert(infos[m] == i && moves(v, infos[m], from));
                            }
                        }
                        assert(at::<FileInfo>(w, i).entity == from);
                    }
                    if at::<FileInfo>(w, i).entity == from && y == at::<FileInfo>(w, i).path {
                        assert(moves(v, infos[n - 1], from));
                        assert(moved_path(v, infos, n, from, y));
                    }
                }
            }
        }
    } else {
        assert(infos.subrange(0, 0) =~= Seq::empty());
    }
}

pub(crate) proof fn lemma_copied(v: ArchiveView, i: u32, prefs: LocalePreferences)
    requires
        v.wf(),
        can_copy(v, i),
    ensures
        ({
            let w = copied(v, i);
            let info = at::<FileInfo>(v, i);
            let copy = at::<FileInfo>(w, count::<FileInfo>(v) as u32);
            let f = at::<FileDescriptor>(v, info.desc).file_data;
            &&& w.wf()
            &&& w.resource.file_path == v.resource.file_path
            &&& same_data_but(v, w, None)
            &&& count::<FileInfo>(w) == count::<FileInfo>(v) + 1
            &&& count::<FileEntity>(w) == count::<FileEntity>(v) + 1
            &&& count::<FileDescriptor>(w) == count::<FileDescriptor>(v) + 1
            &&& count::<FileData>(w) == count::<FileData>(v) + 1
            &&& forall|k: u32| #[trigger]
                holds::<FileInfo>(v, k) ==> at::<FileInfo>(w, k) == at::<FileInfo>(v, k)
            &&& forall|k: u32| #[trigger]
                holds::<FileEntity>(v, k) ==> at::<FileEntity>(w, k) == at::<FileEntity>(v, k)
            &&& forall|k: u32| #[trigger]
                holds::<FileDescriptor>(v, k) ==> at::<FileDescriptor>(w, k) == at::<FileDescriptor>(v, k)
            &&& at::<FileEntity>(w, count::<FileEntity>(v) as u32).info == count::<FileInfo>(v)
            &&& copy.entity == count::<FileEntity>(v)
            &&& copy.spec_desc_index(prefs) == count::<FileDescriptor>(v)
            &&& at::<FileDescriptor>(w, count::<FileDescriptor>(v) as u32).file_data == count::<FileData>(
                v,
            )
            &&& at::<FileData>(w, count::<FileData>(v) as u32) == at::<FileData>(v, f)
            &&& info.spec_desc_index(prefs) == info.desc
        }),
{
    reveal(copied);
    let info = at::<FileInfo>(v, i);
    let desc = at::<FileDescriptor>(v, info.desc);
    let group = at::<FileEntity>(v, info.entity).package_or_group;
    let x1 = at::<FileData>(v, desc.file_data);
    let v1 = pushed(v, x1);
    law_stored(v, 0, x1);
    let x2 = FileDescriptor { file_data: count::<FileData>(v) as u32, ..desc };
    let v2 = pushed(v1, x2);
    law_stored(v1, 0, x2);
    let x3 = FileInfo {
        desc: count::<FileDescriptor>(v) as u32,
        entity: count::<FileEntity>(v) as u32,
        flags: info.flags.plus(INFO_IS_RESHARED),
        ..info
    };
    let v3 = pushed(v2, x3);
    law_stored(v2, 0, x3);
    let x4 = FileEntity { package_or_group: group, info: count::<FileInfo>(v) as u32 };
    law_stored(v3, 0, x4);
    lemma_shared_flags(info.flags);
    law_non_localized_desc(x3, prefs);
    law_non_localized_desc(info, prefs);
}

/// When the file of info `i` is about to be replaced, the paths that shared with it lead to a copy of
/// its data, and a path that is loaded by `i` and is none of them still leads to the data that it led
/// to. No data that was there has changed.
pub proof fn law_spared_loads(
    v: ArchiveView,
    i: u32,
    dependents: Seq<u32>,
    x: u32,
    prefs: LocalePreferences,
)
    requires
        v.wf(),
        can_copy(v, i),
        count::<FileEntity>(v) < 0x100_0000,
        holds::<FilePath>(v, x),
    ensures
        spare(v, i, dependents, prefs) matches Some(w) ==> {
            let from = at::<FileInfo>(v, i).entity;
            let f = at::<FileDescriptor>(v, at::<FileInfo>(v, i).desc).file_data;
            let n = count::<FileData>(v) as u32;
            &&& same_data_but(v, w, None)
            &&& at::<FileData>(w, n) == at::<FileData>(v, f)
            &&& moved_path(v, dependents, dependents.len() as int, from, x) ==> data_index(w, x, prefs)
                == Some(n)
            &&& !moved_path(v, dependents, dependents.len() as int, from, x) ==> {
                data_index(v, x, prefs) matches Some(g) ==> data_index(w, x, prefs) == Some(g)
                    && loading_info(w, x) == loading_info(v, x)
            }
        },
{
    let from = at::<FileInfo>(v, i).entity;
    let entity = count::<FileEntity>(v) as u32;
    let u = copied(v, i);
    let len = dependents.len() as int;
    lemma_copied(v, i, prefs);
    lemma_redirect_all(u, dependents, len, from, entity, prefs);
    if let Some(w) = redirect_all(u, dependents, len, from, entity, prefs) {
        assert forall|k: u32| #[trigger] holds::<FileData>(v, k) implies holds::<FileData>(w, k)
            && at::<FileData>(w, k) == at::<FileData>(v, k) by {
            assert(holds::<FileData>(u, k));
        }
        let n = count::<FileData>(v) as u32;
        assert(holds::<FileData>(u, n));
        assert(holds::<FileEntity>(u, entity));
        assert(holds::<FileInfo>(u, count::<FileInfo>(v) as u32));
        assert(holds::<FileDescriptor>(u, count::<FileDescriptor>(v) as u32));
        assert(holds::<FilePath>(u, x));
        let there = moved_path(u, dependents, len, from, x);
        assert(there == moved_path(v, dependents, len, from, x)) by {
            if there {
                let j = choose|j: int|
                    0 <= j < len && moves(u, #[trigger] dependents[j], from) && at::<FileInfo>(
                        u,
                        dependents[j],
                    ).path == x;
                // The copy belongs to the new entity, so it is not one of those that are moved.
                assert(holds::<FileInfo>(v, dependents[j]));
                assert(moves(v, dependents[j], from));
            }
            if moved_path(v, dependents, len, from, x) {
                let j = choose|j: int|
                    0 <= j < len && moves(v, #[trigger] dependents[j], from) && at::<FileInfo>(
                        v,
                        dependents[j],
                    ).path == x;
                assert(holds::<FileInfo>(v, dependents[j]));
                assert(moves(u, dependents[j], from));
            }
        }
        if !there {
            if let Some(g) = data_index(v, x, prefs) {
                let e = at::<FilePath>(v, x).spec_entity();
                assert(holds::<FileEntity>(v, e));
                let l = loading_info(v, x);
                assert(holds::<FileInfo>(v, l));
                let d = at::<FileInfo>(v, l).spec_desc_index(prefs);
                law_stored(v, 0, at::<FileDescriptor>(v, 0));
                assert(holds::<FileDescriptor>(v, d as u32));
                assert(holds::<FileData>(v, g));
                assert(data_index(u, x, prefs) == Some(g));
                lemma_same_route(u, w, x, prefs);
                assert(holds::<FileEntity>(u, e));
            }
        }
    }
}

/// Is this the path of a file that is replaced? Localized and regional files are left alone.
///
/// If the path shared its data, it has to be the path of the first info of its list, as it is in the
/// lists that were collected. If others shared with it, it must not be the path of one of them.
pub open spec fn is_replaceable(s: Patching, path: Hash40) -> bool {
    let v = s.archive;
    let p = v.find_file_path(path)->0;
    let k = at::<FilePath>(v, p).spec_path().0;
    let i = loading_info(v, p);
    &&& v.find_file_path(path) is Some
    &&& if s.shares.unshare.contains_key(k) && s.shares.unshare[k].len() > 0 {
        let first = s.shares.unshare[k][0].1;
        &&& at::<FileInfo>(v, first).path == p
        &&& !at::<FileInfo>(v, first).flags.has(INFO_LOCALIZED_OR_REGIONAL)
    } else {
        &&& !at::<FileInfo>(v, i).flags.has(INFO_LOCALIZED_OR_REGIONAL)
        &&& s.shares.reverse.contains_key(i) ==> !moved_path(
            v,
            s.shares.reverse[i],
            s.shares.reverse[i].len() as int,
            at::<FileInfo>(v, i).entity,
            p,
        )
    }
}

/// A file that is replaced leads to data of the size of its replacement, and other data keeps its
/// size.
pub proof fn law_replaced_loads(s: Patching, path: Hash40, size: u32, prefs: LocalePreferences)
    requires
        s.archive.wf(),
        count::<FileEntity>(s.archive) < 0x100_0000,
        replace(s, path, size, prefs) is Some,
        is_replaceable(s, path),
    ensures
        ({
            let v = s.archive;
            let w = replace(s, path, size, prefs)->0.archive;
            let p = v.find_file_path(path)->0;
            &&& data_index(w, p, prefs) is Some
            &&& at::<FileData>(w, data_index(w, p, prefs)->0).decompressed_size == size
            &&& same_data_but(v, w, data_index(w, p, prefs))
        }),
{
    let v = s.archive;
    let p = v.find_file_path(path)->0;
    let k = at::<FilePath>(v, p).spec_path().0;
    let i = loading_info(v, p);
    if s.shares.unshare.contains_key(k) && s.shares.unshare[k].len() > 0 {
        law_unshared_loads(v, s.shares.unshare[k], size, prefs);
    } else {
        assert(replace_owner(s, i, size, prefs) is Some);
        reveal(resized);
        let spared = if s.shares.reverse.contains_key(i) {
            spare(v, i, s.shares.reverse[i], prefs)
        } else {
            Some(v)
        };
        let w = spared->0;
        let x = resized(w, i, size, prefs)->0;
        if s.shares.reverse.contains_key(i) {
            let deps = s.shares.reverse[i];
            law_spared_loads(v, i, deps, p, prefs);
            lemma_copied(v, i, prefs);
            lemma_redirect_all(
                copied(v, i),
                deps,
                deps.len() as int,
                at::<FileInfo>(v, i).entity,
                count::<FileEntity>(v) as u32,
                prefs,
            );
            assert(w.wf());
            assert(data_index(v, p, prefs) is Some) by {
                law_non_localized_desc(at::<FileInfo>(v, i), prefs);
            }
            assert(loading_info(w, p) == i);
        }
        let d = at::<FileInfo>(w, i).spec_desc_index(prefs);
        let f = at::<FileDescriptor>(w, d as u32).file_data;
        let y = FileData { decompressed_size: size, ..at::<FileData>(w, f) };
        assert(holds::<FileData>(w, f));
        law_stored(w, f, y);
        assert(x == with(w, f, y));
        assert(data_index(x, p, prefs) == Some(f));
        assert forall|j: u32| #[trigger] holds::<FileData>(v, j) && Some(j) != Some(f) implies holds::<
            FileData,
        >(x, j) && at::<FileData>(x, j) == at::<FileData>(v, j) by {
            assert(holds::<FileData>(w, j));
        }
    }
}

proof fn lemma_owned_frame(
    v: ArchiveView,
    infos: Seq<(u32, u32)>,
    size: u32,
    p: u32,
    prefs: LocalePreferences,
)
    requires
        v.wf(),
        can_own(v, infos),
        data_index(v, p, prefs) is Some,
        loading_info(v, p) != infos[0].1,
        at::<FileInfo>(v, infos[0].1).path != p,
    ensures
        owned(v, infos, size).wf(),
        data_index(owned(v, infos, size), p, prefs) == data_index(v, p, prefs),
        same_data_but(v, owned(v, infos, size), None),
{
    reveal(owned);
    let (k, first) = infos[0];
    let group = at::<FilePackage>(v, k).spec_data_group();
    let data = count::<FileData>(v) as u32;
    let entity = count::<FileEntity>(v) as u32;
    let desc = count::<FileDescriptor>(v) as u32;
    let info = at::<FileInfo>(v, first);
    let x1 = FileData::unshared(size, 0);
    let v1 = pushed(v, x1);
    law_stored(v, 0, x1);
    let x2 = FileEntity { package_or_group: k, info: first };
    let v2 = pushed(v1, x2);
    law_stored(v1, 0, x2);
    let x3 = FileDescriptor { group, file_data: data, load_method: FileLoadMethod::Owned(0).raw() };
    let v3 = pushed(v2, x3);
    law_stored(v2, 0, x3);
    let v4 = woken(v3, group);
    law_stored(
        v3,
        group,
        FileGroup { compressed_size: 0x10, ..at::<FileGroup>(v3, group) },
    );
    let x5 = FileInfo {
        entity,
        desc,
        flags: info.flags.minus(INFO_IS_SHARED).minus(INFO_IS_UNKNOWN_FLAG),
        ..info
    };
    let v5 = with(v4, first, x5);
    law_stored(v4, first, x5);
    let path = at::<FilePath>(v5, info.path);
    let x6 = FilePath { path_and_entity: path.path_and_entity.with_data(entity), ..path };
    law_stored(v5, info.path, x6);
}

/// When the data of path `q` is resized, path `p` either shared with it and is pointed at a copy, or leads
/// to other data.
pub open spec fn spared_or_apart(s: Patching, q: u32, p: u32, prefs: LocalePreferences) -> bool {
    let v = s.archive;
    let i = loading_info(v, q);
    let from = at::<FileInfo>(v, i).entity;
    if s.shares.reverse.contains_key(i) && moved_path(
        v,
        s.shares.reverse[i],
        s.shares.reverse[i].len() as int,
        from,
        p,
    ) {
        at::<FilePath>(v, p).spec_entity() == from
    } else {
        data_index(v, p, prefs) != data_index(v, q, prefs)
    }
}

/// Path `p` shares with the file at `path` no more than the collected lists tell: it is not loaded by the
/// info that is given data of its own, and does not lead to the data that is resized, unless it is one of
/// the paths that are pointed at a copy.
pub open spec fn stays_apart(s: Patching, path: Hash40, p: u32, prefs: LocalePreferences) -> bool {
    let v = s.archive;
    v.find_file_path(path) matches Some(q) ==> {
        let k = at::<FilePath>(v, q).spec_path().0;
        if s.shares.unshare.contains_key(k) && s.shares.unshare[k].len() > 0 {
            let first = s.shares.unshare[k][0].1;
            loading_info(v, p) != first && at::<FileInfo>(v, first).path != p
        } else {
            spared_or_apart(s, q, p, prefs)
        }
    }
}

/// Replacing a file leaves what another path leads to as it was, if that stays apart.
pub proof fn law_replaced_frame(s: Patching, path: Hash40, size: u32, p: u32, prefs: LocalePreferences)
    requires
        s.archive.wf(),
        count::<FileEntity>(s.archive) < 0x100_0000,
        replace(s, path, size, prefs) is Some,
        data_index(s.archive, p, prefs) is Some,
        stays_apart(s, path, p, prefs),
    ensures
        ({
            let v = s.archive;
            let w = replace(s, path, size, prefs)->0.archive;
            &&& data_index(w, p, prefs) is Some
            &&& at::<FileData>(w, data_index(w, p, prefs)->0) == at::<FileData>(
                v,
                data_index(v, p, prefs)->0,
            )
        }),
{
    let v = s.archive;
    let f = data_index(v, p, prefs)->0;
    assert(holds::<FileData>(v, f));
    if let Some(q) = v.find_file_path(path) {
        let k = at::<FilePath>(v, q).spec_path().0;
        let i = loading_info(v, q);
        if s.shares.unshare.contains_key(k) && s.shares.unshare[k].len() > 0 {
            let infos = s.shares.unshare[k];
            if !at::<FileInfo>(v, infos[0].1).flags.has(INFO_LOCALIZED_OR_REGIONAL) {
                lemma_owned_frame(v, infos, size, p, prefs);
                let w = owned(v, infos, size);
                let e = count::<FileEntity>(v) as u32;
                lemma_follow_all_rerouted(w, infos.skip(1), infos.len() - 1, e, prefs);
                let x = follow_all(w, infos.skip(1), infos.len() - 1, e, prefs)->0;
                assert(holds::<FilePath>(w, p));
                lemma_same_route(w, x, p, prefs);
            }
        } else if !at::<FileInfo>(v, i).flags.has(INFO_LOCALIZED_OR_REGIONAL) {
            assert(replace_owner(s, i, size, prefs) is Some);
            lemma_owner_frame(s, q, i, size, p, prefs);
        }
    }
}

proof fn lemma_owner_frame(s: Patching, q: u32, i: u32, size: u32, p: u32, prefs: LocalePreferences)
    requires
        s.archive.wf(),
        count::<FileEntity>(s.archive) < 0x100_0000,
        replace_owner(s, i, size, prefs) is Some,
        holds::<FilePath>(s.archive, q),
        holds::<FileEntity>(s.archive, at::<FilePath>(s.archive, q).spec_entity()),
        i == loading_info(s.archive, q),
        holds::<FileInfo>(s.archive, i),
        !at::<FileInfo>(s.archive, i).flags.has(INFO_LOCALIZED_OR_REGIONAL),
        data_index(s.archive, p, prefs) is Some,
        spared_or_apart(s, q, p, prefs),
    ensures
        ({
            let v = s.archive;
            let w = replace_owner(s, i, size, prefs)->0.archive;
            &&& data_index(w, p, prefs) is Some
            &&& at::<FileData>(w, data_index(w, p, prefs)->0) == at::<FileData>(
                v,
                data_index(v, p, prefs)->0,
            )
        }),
{
    let v = s.archive;
    let f = data_index(v, p, prefs)->0;
    assert(holds::<FileData>(v, f));
    reveal(resized);
    let info = at::<FileInfo>(v, i);
    law_non_localized_desc(info, prefs);
    if s.shares.reverse.contains_key(i) {
        let deps = s.shares.reverse[i];
        let w = spare(v, i, deps, prefs)->0;
        lemma_copied(v, i, prefs);
        lemma_redirect_all(
            copied(v, i),
            deps,
            deps.len() as int,
            info.entity,
            count::<FileEntity>(v) as u32,
            prefs,
        );
        law_spared_loads(v, i, deps, p, prefs);
        let g = at::<FileDescriptor>(v, info.desc).file_data;
        assert(data_index(v, q, prefs) == Some(g));
        // The data that is resized is that of the info, which is none of the new records.
        assert(holds::<FileInfo>(copied(v, i), i));
        assert(holds::<FileDescriptor>(copied(v, i), info.desc));
        assert(at::<FileInfo>(w, i).desc == info.desc);
        assert(at::<FileInfo>(w, i).spec_desc_index(prefs) == info.desc);
        assert(at::<FileDescriptor>(w, info.desc).file_data == g);
        assert(holds::<FileData>(v, g));
        let y = FileData { decompressed_size: size, ..at::<FileData>(w, g) };
        assert(holds::<FileData>(w, g));
        law_stored(w, g, y);
        let x = with(w, g, y);
        assert(x == replace_owner(s, i, size, prefs)->0.archive);
        let n = count::<FileData>(v) as u32;
        if moved_path(v, deps, deps.len() as int, info.entity, p) {
            assert(f == g);
            assert(data_index(x, p, prefs) == Some(n));
        } else {
            assert(data_index(x, p, prefs) == Some(f));
        }
    } else {
        let g = at::<FileDescriptor>(v, info.desc).file_data;
        let y = FileData { decompressed_size: size, ..at::<FileData>(v, g) };
        assert(holds::<FileData>(v, g));
        assert(data_index(v, q, prefs) == Some(g));
        law_stored(v, g, y);
        assert(data_index(with(v, g, y), p, prefs) == Some(f));
    }
}

/// A file that was added is found by its path and leads to data of its size, which belongs to the
/// group it was added for. No data that was there has changed.
pub proof fn law_added_loads(v: ArchiveView, file: NewFile, group: u32, prefs: LocalePreferences)
    requires
        v.wf(),
        count::<FileEntity>(v) < 0x100_0000,
    ensures
        add_file(v, file, group) matches Some(w) ==> {
            let p = count::<FilePath>(v) as u32;
            let f = count::<FileData>(v) as u32;
            &&& w.find_file_path(file.filepath.spec_path()) == Some(p)
            &&& data_index(w, p, prefs) == Some(f)
            &&& at::<FileData>(w, f) == FileData::unshared(file.size, 0)
            &&& at::<FileInfo>(w, loading_info(w, p)).path == p
            &&& same_data_but(v, w, None)
        },
{
    reveal(add_file);
    if let Some(w) = add_file(v, file, group) {
        let e = count::<FileEntity>(v) as u32;
        let p = count::<FilePath>(v) as u32;
        let f = count::<FileData>(v) as u32;
        let d = count::<FileDescriptor>(v) as u32;
        let i = count::<FileInfo>(v) as u32;
        let path = FilePath {
            path_and_entity: file.filepath.path_and_entity.with_data(e),
            ..file.filepath
        };
        law_hash_with_data_independent(file.filepath.path_and_entity, Hash40(0), e);
        let x1 = FileEntity { package_or_group: group, info: i };
        let v1 = pushed(v, x1);
        law_stored(v, 0, x1);
        law_insert_file_path(v1, path, Hash40(0));
        let v2 = v1.insert_file_path(path);
        let x3 = FileData::unshared(file.size, 0);
        let v3 = pushed(v2, x3);
        law_stored(v2, 0, x3);
        let x4 = FileDescriptor {
            group,
            file_data: f,
            load_method: FileLoadMethod::Owned(0).raw(),
        };
        let v4 = pushed(v3, x4);
        law_stored(v3, 0, x4);
        let x5 = FileInfo {
            path: p,
            entity: e,
            desc: d,
            flags: FileInfoFlags { bits: INFO_IS_GRAPHICS_ARCHIVE },
        };
        law_stored(v4, 0, x5);
        assert(INFO_IS_GRAPHICS_ARCHIVE & INFO_LOCALIZED_OR_REGIONAL == 0) by (bit_vector);
        law_non_localized_desc(x5, prefs);
    }
}

} // verus!
