//! What patching the archive keeps, and what it brings about.

use crate::access::{at, count, has_run, holds, law_stored, pushed, with};
use crate::add_files::{
    add_all, add_file, add_files, append_child, extend_package, extend_packages, last_child, register,
    register_all, relocate, relocate_run, Groups, NewFile, Registering,
};
use crate::archive::{balanced, law_archive_round_trip, law_reserialized_contents, ArchiveView};
use crate::containers::{law_table_is_sequence, TableView};
use crate::data::{
    FileData, FileDescriptor, FileEntity, FileGroup, FileInfo, FileLoadMethod, FilePackage, FilePackageChild,
    FilePath, SearchFolder, SearchPath, SearchPathLink, INFO_IS_SHARED, INFO_IS_UNKNOWN_FLAG,
};
use crate::discover::FileSystemView;
use crate::hash40::Hash40;
use crate::hash_interner::SlabView;
use crate::locale::LocalePreferences;
use crate::lookup::{law_insert_file_path, law_insert_search_path};
use crate::navigate::with_path_entity;
use crate::patch::{additions, patched, patched_for_mods, replaced, replacements};
use crate::reshare::{
    renamed_path, reshare_groups, reshare_info, reshare_package, reshare_packages, reshare_run,
    reshared_path, with_load_method, Resharing,
};
use crate::share::{collected, package_infos};
use crate::unshare::{
    can_copy, can_own, copied, follow_all, follow_entity, owned, redirect, redirect_all, replace,
    replace_all, resized, spare, unshare, woken, Patching,
};
use vstd::prelude::*;

verus! {

/// The hashes of a path. Patching may give it another entity, but not other hashes.
pub open spec fn same_hashes(a: FilePath, b: FilePath) -> bool {
    a.spec_path() == b.spec_path() && a.ext_and_version == b.ext_and_version && a.parent == b.parent
        && a.file_name == b.file_name
}

/// Every path of `v` is found in `w`, at the same index and with the same hashes, every package is found
/// at the same index, and no table has lost a record.
pub open spec fn grows(v: ArchiveView, w: ArchiveView) -> bool {
    &&& w.wf()
    &&& balanced(v) ==> balanced(w)
    &&& forall|h: Hash40| #[trigger]
        v.find_file_path(h) is Some ==> w.find_file_path(h) == v.find_file_path(h)
    &&& forall|i: u32| #[trigger]
        holds::<FilePath>(v, i) ==> holds::<FilePath>(w, i) && same_hashes(
            at::<FilePath>(v, i),
            at::<FilePath>(w, i),
        )
    &&& forall|h: Hash40| #[trigger]
        v.find_file_package(h) is Some ==> w.find_file_package(h) == v.find_file_package(h)
    &&& count::<FilePath>(v) <= count::<FilePath>(w)
    &&& count::<FileInfo>(v) <= count::<FileInfo>(w)
    &&& count::<FileEntity>(v) <= count::<FileEntity>(w)
    &&& count::<FileDescriptor>(v) <= count::<FileDescriptor>(w)
    &&& count::<FileData>(v) <= count::<FileData>(w)
    &&& count::<FileGroup>(v) <= count::<FileGroup>(w)
    &&& count::<FilePackage>(v) <= count::<FilePackage>(w)
    &&& count::<FilePackageChild>(v) <= count::<FilePackageChild>(w)
    &&& count::<SearchPath>(v) <= count::<SearchPath>(w)
    &&& count::<SearchFolder>(v) <= count::<SearchFolder>(w)
}

pub proof fn law_grows_reflexive(v: ArchiveView)
    requires
        v.wf(),
    ensures
        grows(v, v),
{
}

pub proof fn law_grows_transitive(u: ArchiveView, v: ArchiveView, w: ArchiveView)
    requires
        grows(u, v),
        grows(v, w),
    ensures
        grows(u, w),
{
    assert forall|i: u32| #[trigger] holds::<FilePath>(u, i) implies holds::<FilePath>(w, i)
        && same_hashes(at::<FilePath>(u, i), at::<FilePath>(w, i)) by {
        assert(holds::<FilePath>(v, i));
    }
    assert forall|h: Hash40| #[trigger] u.find_file_path(h) is Some implies w.find_file_path(h)
        == u.find_file_path(h) by {
        assert(v.find_file_path(h) is Some);
    }
    assert forall|h: Hash40| #[trigger] u.find_file_package(h) is Some implies w.find_file_package(h)
        == u.find_file_package(h) by {
        assert(v.find_file_package(h) is Some);
    }
}

pub(crate) proof fn lemma_with_info(v: ArchiveView, i: u32, x: FileInfo)
    requires
        v.wf(),
        holds::<FileInfo>(v, i),
    ensures
        grows(v, with(v, i, x)),
{
    law_stored(v, i, x);
}

pub(crate) proof fn lemma_with_desc(v: ArchiveView, i: u32, x: FileDescriptor)
    requires
        v.wf(),
        holds::<FileDescriptor>(v, i),
    ensures
        grows(v, with(v, i, x)),
{
    law_stored(v, i, x);
}

proof fn lemma_with_entity(v: ArchiveView, i: u32, x: FileEntity)
    requires
        v.wf(),
        holds::<FileEntity>(v, i),
    ensures
        grows(v, with(v, i, x)),
{
    law_stored(v, i, x);
}

proof fn lemma_with_data(v: ArchiveView, i: u32, x: FileData)
    requires
        v.wf(),
        holds::<FileData>(v, i),
    ensures
        grows(v, with(v, i, x)),
{
    law_stored(v, i, x);
}

proof fn lemma_with_group(v: ArchiveView, i: u32, x: FileGroup)
    requires
        v.wf(),
        holds::<FileGroup>(v, i),
    ensures
        grows(v, with(v, i, x)),
{
    law_stored(v, i, x);
}

proof fn lemma_with_package(v: ArchiveView, i: u32, x: FilePackage)
    requires
        v.wf(),
        holds::<FilePackage>(v, i),
    ensures
        grows(v, with(v, i, x)),
{
    law_stored(v, i, x);
}

proof fn lemma_with_search_path(v: ArchiveView, i: u32, x: SearchPath)
    requires
        v.wf(),
        holds::<SearchPath>(v, i),
    ensures
        grows(v, with(v, i, x)),
{
    law_stored(v, i, x);
}

pub(crate) proof fn lemma_with_path_entity(v: ArchiveView, i: u32, entity: u32)
    requires
        v.wf(),
        holds::<FilePath>(v, i),
    ensures
        grows(v, with_path_entity(v, i, entity)),
{
    let path = at::<FilePath>(v, i);
    let x = FilePath { path_and_entity: path.path_and_entity.with_data(entity), ..path };
    law_stored(v, i, x);
    let w = with_path_entity(v, i, entity);
    assert forall|j: u32| #[trigger] holds::<FilePath>(v, j) implies holds::<FilePath>(w, j)
        && same_hashes(at::<FilePath>(v, j), at::<FilePath>(w, j)) by {
        if j == i {
            assert(x.spec_path() == path.spec_path());
        }
    }
}

pub(crate) proof fn lemma_pushed_info(v: ArchiveView, x: FileInfo)
    requires
        v.wf(),
        count::<FileInfo>(v) < u32::MAX,
    ensures
        grows(v, pushed(v, x)),
{
    law_stored(v, 0, x);
}

pub(crate) proof fn lemma_pushed_desc(v: ArchiveView, x: FileDescriptor)
    requires
        v.wf(),
        count::<FileDescriptor>(v) < u32::MAX,
    ensures
        grows(v, pushed(v, x)),
{
    law_stored(v, 0, x);
}

proof fn lemma_pushed_entity(v: ArchiveView, x: FileEntity)
    requires
        v.wf(),
        count::<FileEntity>(v) < u32::MAX,
    ensures
        grows(v, pushed(v, x)),
{
    law_stored(v, 0, x);
}

pub(crate) proof fn lemma_pushed_data(v: ArchiveView, x: FileData)
    requires
        v.wf(),
        count::<FileData>(v) < u32::MAX,
    ensures
        grows(v, pushed(v, x)),
{
    law_stored(v, 0, x);
}

pub(crate) proof fn lemma_insert_path(v: ArchiveView, path: FilePath)
    requires
        v.wf(),
        v.can_insert_file_path(path),
    ensures
        grows(v, v.insert_file_path(path)),
{
    law_insert_file_path(v, path, path.spec_path());
    let w = v.insert_file_path(path);
    assert forall|h: Hash40| #[trigger] v.find_file_path(h) is Some implies w.find_file_path(h)
        == v.find_file_path(h) by {
        law_insert_file_path(v, path, h);
    }
    assert forall|i: u32| #[trigger] holds::<FilePath>(v, i) implies holds::<FilePath>(w, i)
        && same_hashes(at::<FilePath>(v, i), at::<FilePath>(w, i)) by {}
}

pub(crate) proof fn lemma_insert_search(v: ArchiveView, path: SearchPath)
    requires
        v.wf(),
        v.can_insert_search_path(path),
    ensures
        grows(v, v.insert_search_path(path)),
{
    law_insert_search_path(v, path, path.spec_path());
}

proof fn lemma_load_method(v: ArchiveView, i: u32, m: FileLoadMethod, prefs: LocalePreferences)
    requires
        v.wf(),
    ensures
        with_load_method(v, i, m, prefs) matches Some(w) ==> grows(v, w),
{
    let d = at::<FileInfo>(v, i).spec_desc_index(prefs);
    law_stored(v, 0, at::<FileDescriptor>(v, 0));
    if 0 <= d < count::<FileDescriptor>(v) {
        let desc = at::<FileDescriptor>(v, d as u32);
        lemma_with_desc(v, d as u32, FileDescriptor { load_method: m.raw(), ..desc });
    }
}

/// Giving the files of groups paths of their own keeps every path.
pub proof fn law_reshare_info_grows(s: Resharing, i: u32, prefs: LocalePreferences)
    requires
        s.archive.wf(),
        holds::<FileInfo>(s.archive, i),
    ensures
        reshare_info(s, i, prefs) matches Some(t) ==> grows(s.archive, t.archive),
{
    reveal(reshare_info);
    let v = s.archive;
    let info = at::<FileInfo>(v, i);
    if let Some((t, p)) = renamed_path(s, info.path) {
        if s.renamed.contains_key(info.path) {
            law_grows_reflexive(v);
        } else {
            lemma_insert_path(v, reshared_path(at::<FilePath>(v, info.path)));
        }
        let x = FileInfo {
            path: p,
            flags: info.flags.plus(crate::data::INFO_IS_RESHARED),
            ..info
        };
        lemma_with_info(t.archive, i, x);
        let w = with(t.archive, i, x);
        law_grows_transitive(v, t.archive, w);
        lemma_load_method(w, i, FileLoadMethod::PackageSkip(i), prefs);
        if let Some(y) = with_load_method(w, i, FileLoadMethod::PackageSkip(i), prefs) {
            law_grows_transitive(v, w, y);
        }
    }
}

proof fn lemma_reshare_run_grows(s: Resharing, start: u32, end: int, prefs: LocalePreferences)
    requires
        s.archive.wf(),
        end <= count::<FileInfo>(s.archive),
    ensures
        reshare_run(s, start, end, prefs) matches Some(t) ==> grows(s.archive, t.archive),
    decreases end - start,
{
    law_stored(s.archive, 0, at::<FileInfo>(s.archive, 0));
    if end <= start {
        law_grows_reflexive(s.archive);
    } else {
        lemma_reshare_run_grows(s, start, end - 1, prefs);
        if let Some(t) = reshare_run(s, start, end - 1, prefs) {
            law_reshare_info_grows(t, (end - 1) as u32, prefs);
            if let Some(u) = reshare_info(t, (end - 1) as u32, prefs) {
                law_grows_transitive(s.archive, t.archive, u.archive);
            }
        }
    }
}

proof fn lemma_reshare_packages_grows(s: Resharing, n: int, prefs: LocalePreferences)
    requires
        s.archive.wf(),
    ensures
        reshare_packages(s, n, prefs) matches Some(t) ==> grows(s.archive, t.archive),
    decreases n,
{
    if n <= 0 {
        law_grows_reflexive(s.archive);
    } else {
        lemma_reshare_packages_grows(s, n - 1, prefs);
        if let Some(t) = reshare_packages(s, n - 1, prefs) {
            reveal(reshare_package);
            let v = t.archive;
            let p = (n - 1) as u32;
            let g = at::<FileGroup>(v, at::<FilePackage>(v, p).spec_data_group()).redirection;
            let group = at::<FileGroup>(v, g);
            law_grows_reflexive(v);
            let t2 = Resharing { managed: t.managed.insert(g), ..t };
            if has_run::<FileInfo>(v, group.child_start, group.child_count) {
                lemma_reshare_run_grows(
                    t2,
                    group.child_start,
                    group.child_start + group.child_count,
                    prefs,
                );
            }
            if let Some(u) = reshare_package(t, p, prefs) {
                assert(grows(v, u.archive));
                law_grows_transitive(s.archive, v, u.archive);
            }
        }
    }
}

/// Giving the files of groups paths of their own keeps every path.
pub proof fn law_reshare_groups_grows(v: ArchiveView, prefs: LocalePreferences)
    requires
        v.wf(),
    ensures
        reshare_groups(v, prefs) matches Some(w) ==> grows(v, w),
{
    lemma_reshare_packages_grows(
        Resharing { archive: v, renamed: Map::empty(), managed: Set::empty() },
        count::<FilePackage>(v) as int,
        prefs,
    );
}

proof fn lemma_follow_entity_grows(v: ArchiveView, i: u32, entity: u32, prefs: LocalePreferences)
    requires
        v.wf(),
    ensures
        follow_entity(v, i, entity, prefs) matches Some(w) ==> grows(v, w),
{
    reveal(follow_entity);
    if holds::<FileInfo>(v, i) {
        let info = at::<FileInfo>(v, i);
        let x = FileInfo {
            entity,
            flags: info.flags.plus(INFO_IS_SHARED).plus(INFO_IS_UNKNOWN_FLAG),
            ..info
        };
        lemma_with_info(v, i, x);
        let w = with(v, i, x);
        lemma_load_method(w, i, FileLoadMethod::Unowned(entity), prefs);
        if let Some(y) = with_load_method(w, i, FileLoadMethod::Unowned(entity), prefs) {
            law_grows_transitive(v, w, y);
        }
    }
}

proof fn lemma_follow_all_grows(
    v: ArchiveView,
    infos: Seq<(u32, u32)>,
    n: int,
    entity: u32,
    prefs: LocalePreferences,
)
    requires
        v.wf(),
    ensures
        follow_all(v, infos, n, entity, prefs) matches Some(w) ==> grows(v, w),
    decreases n,
{
    if n <= 0 {
        law_grows_reflexive(v);
    } else {
        lemma_follow_all_grows(v, infos, n - 1, entity, prefs);
        if let Some(w) = follow_all(v, infos, n - 1, entity, prefs) {
            lemma_follow_entity_grows(w, infos[n - 1].1, entity, prefs);
            if let Some(x) = follow_entity(w, infos[n - 1].1, entity, prefs) {
                law_grows_transitive(v, w, x);
            }
        }
    }
}

proof fn lemma_owned_grows(v: ArchiveView, infos: Seq<(u32, u32)>, size: u32)
    requires
        v.wf(),
        can_own(v, infos),
    ensures
        grows(v, owned(v, infos, size)),
{
    reveal(owned);
    let (p, first) = infos[0];
    let group = at::<FilePackage>(v, p).spec_data_group();
    let data = count::<FileData>(v) as u32;
    let entity = count::<FileEntity>(v) as u32;
    let desc = count::<FileDescriptor>(v) as u32;
    let info = at::<FileInfo>(v, first);
    let v1 = pushed(v, FileData::unshared(size, 0));
    lemma_pushed_data(v, FileData::unshared(size, 0));
    let x2 = FileEntity { package_or_group: p, info: first };
    let v2 = pushed(v1, x2);
    lemma_pushed_entity(v1, x2);
    law_grows_transitive(v, v1, v2);
    let x3 = FileDescriptor { group, file_data: data, load_method: FileLoadMethod::Owned(0).raw() };
    let v3 = pushed(v2, x3);
    lemma_pushed_desc(v2, x3);
    law_grows_transitive(v, v2, v3);
    let v4 = woken(v3, group);
    law_grows_reflexive(v3);
    lemma_with_group(
        v3,
        group,
        FileGroup { compressed_size: 0x10, ..at::<FileGroup>(v3, group) },
    );
    assert(grows(v3, v4));
    law_grows_transitive(v, v3, v4);
    let x5 = FileInfo {
        entity,
        desc,
        flags: info.flags.minus(INFO_IS_SHARED).minus(INFO_IS_UNKNOWN_FLAG),
        ..info
    };
    let v5 = with(v4, first, x5);
    lemma_with_info(v4, first, x5);
    law_grows_transitive(v, v4, v5);
    lemma_with_path_entity(v5, info.path, entity);
    law_grows_transitive(v, v5, with_path_entity(v5, info.path, entity));
}

/// Giving a path data of its own keeps every path.
pub proof fn law_unshare_grows(
    v: ArchiveView,
    infos: Seq<(u32, u32)>,
    size: u32,
    prefs: LocalePreferences,
)
    requires
        v.wf(),
        infos.len() > 0,
    ensures
        unshare(v, infos, size, prefs) matches Some(w) ==> grows(v, w),
{
    law_grows_reflexive(v);
    if can_own(v, infos) {
        lemma_owned_grows(v, infos, size);
        let w = owned(v, infos, size);
        let e = count::<FileEntity>(v) as u32;
        lemma_follow_all_grows(w, infos.skip(1), infos.len() - 1, e, prefs);
        if let Some(x) = follow_all(w, infos.skip(1), infos.len() - 1, e, prefs) {
            law_grows_transitive(v, w, x);
        }
    }
}

pub(crate) proof fn lemma_redirect_grows(v: ArchiveView, i: u32, from: u32, entity: u32, prefs: LocalePreferences)
    requires
        v.wf(),
    ensures
        redirect(v, i, from, entity, prefs) matches Some(w) ==> grows(v, w),
{
    reveal(redirect);
    law_grows_reflexive(v);
    let info = at::<FileInfo>(v, i);
    if holds::<FileInfo>(v, i) && holds::<FilePath>(v, info.path) {
        let v1 = with_path_entity(v, info.path, entity);
        lemma_with_path_entity(v, info.path, entity);
        let x = FileInfo { entity, ..info };
        let v2 = with(v1, i, x);
        lemma_with_info(v1, i, x);
        law_grows_transitive(v, v1, v2);
        lemma_load_method(v2, i, FileLoadMethod::Unowned(entity), prefs);
        if let Some(y) = with_load_method(v2, i, FileLoadMethod::Unowned(entity), prefs) {
            law_grows_transitive(v, v2, y);
        }
    }
}

proof fn lemma_redirect_all_grows(
    v: ArchiveView,
    infos: Seq<u32>,
    n: int,
    from: u32,
    entity: u32,
    prefs: LocalePreferences,
)
    requires
        v.wf(),
    ensures
        redirect_all(v, infos, n, from, entity, prefs) matches Some(w) ==> grows(v, w),
    decreases n,
{
    if n <= 0 {
        law_grows_reflexive(v);
    } else {
        lemma_redirect_all_grows(v, infos, n - 1, from, entity, prefs);
        if let Some(w) = redirect_all(v, infos, n - 1, from, entity, prefs) {
            lemma_redirect_grows(w, infos[n - 1], from, entity, prefs);
            if let Some(x) = redirect(w, infos[n - 1], from, entity, prefs) {
                law_grows_transitive(v, w, x);
            }
        }
    }
}

proof fn lemma_copied_grows(v: ArchiveView, i: u32)
    requires
        v.wf(),
        can_copy(v, i),
    ensures
        grows(v, copied(v, i)),
{
    reveal(copied);
    let info = at::<FileInfo>(v, i);
    let desc = at::<FileDescriptor>(v, info.desc);
    let group = at::<FileEntity>(v, info.entity).package_or_group;
    let x1 = at::<FileData>(v, desc.file_data);
    let v1 = pushed(v, x1);
    lemma_pushed_data(v, x1);
    let x2 = FileDescriptor { file_data: count::<FileData>(v) as u32, ..desc };
    let v2 = pushed(v1, x2);
    lemma_pushed_desc(v1, x2);
    law_grows_transitive(v, v1, v2);
    let x3 = FileInfo {
        desc: count::<FileDescriptor>(v) as u32,
        entity: count::<FileEntity>(v) as u32,
        flags: info.flags.plus(crate::data::INFO_IS_RESHARED),
        ..info
    };
    let v3 = pushed(v2, x3);
    lemma_pushed_info(v2, x3);
    law_grows_transitive(v, v2, v3);
    let x4 = FileEntity { package_or_group: group, info: count::<FileInfo>(v) as u32 };
    lemma_pushed_entity(v3, x4);
    law_grows_transitive(v, v3, pushed(v3, x4));
}

proof fn lemma_resized_grows(v: ArchiveView, i: u32, size: u32, prefs: LocalePreferences)
    requires
        v.wf(),
    ensures
        resized(v, i, size, prefs) matches Some(w) ==> grows(v, w),
{
    reveal(resized);
    let d = at::<FileInfo>(v, i).spec_desc_index(prefs);
    let f = at::<FileDescriptor>(v, d as u32).file_data;
    if holds::<FileData>(v, f) {
        lemma_with_data(v, f, FileData { decompressed_size: size, ..at::<FileData>(v, f) });
    }
}

/// Making way for a replacement keeps every path.
pub proof fn law_replace_grows(s: Patching, path: Hash40, size: u32, prefs: LocalePreferences)
    requires
        s.archive.wf(),
    ensures
        replace(s, path, size, prefs) matches Some(t) ==> grows(s.archive, t.archive),
{
    let v = s.archive;
    law_grows_reflexive(v);
    if let Some(p) = v.find_file_path(path) {
        let file_path = at::<FilePath>(v, p);
        let k = file_path.spec_path().0;
        if s.shares.unshare.contains_key(k) && s.shares.unshare[k].len() > 0 {
            law_unshare_grows(v, s.shares.unshare[k], size, prefs);
        } else {
            let i = at::<FileEntity>(v, file_path.spec_entity()).info;
            let spared = if s.shares.reverse.contains_key(i) {
                spare(v, i, s.shares.reverse[i], prefs)
            } else {
                Some(v)
            };
            if s.shares.reverse.contains_key(i) && can_copy(v, i) {
                let deps = s.shares.reverse[i];
                let w = copied(v, i);
                lemma_copied_grows(v, i);
                let from = at::<FileInfo>(v, i).entity;
                let entity = count::<FileEntity>(v) as u32;
                lemma_redirect_all_grows(w, deps, deps.len() as int, from, entity, prefs);
                if let Some(x) = redirect_all(w, deps, deps.len() as int, from, entity, prefs) {
                    law_grows_transitive(v, w, x);
                }
            }
            if let Some(w) = spared {
                assert(grows(v, w));
                lemma_resized_grows(w, i, size, prefs);
                if let Some(x) = resized(w, i, size, prefs) {
                    law_grows_transitive(v, w, x);
                }
            }
        }
    }
}

pub(crate) proof fn lemma_replace_all_grows(
    s: Patching,
    files: Seq<(Hash40, u32)>,
    n: int,
    prefs: LocalePreferences,
)
    requires
        s.archive.wf(),
    ensures
        replace_all(s, files, n, prefs) matches Some(t) ==> grows(s.archive, t.archive),
    decreases n,
{
    if n <= 0 {
        law_grows_reflexive(s.archive);
    } else {
        lemma_replace_all_grows(s, files, n - 1, prefs);
        if let Some(t) = replace_all(s, files, n - 1, prefs) {
            law_replace_grows(t, files[n - 1].0, files[n - 1].1, prefs);
            if let Some(u) = replace(t, files[n - 1].0, files[n - 1].1, prefs) {
                law_grows_transitive(s.archive, t.archive, u.archive);
            }
        }
    }
}

proof fn lemma_last_child_holds(v: ArchiveView, i: u32, fuel: nat)
    requires
        holds::<SearchPath>(v, i),
    ensures
        last_child(v, i, fuel) matches Some(l) ==> holds::<SearchPath>(v, l),
    decreases fuel,
{
    let path = at::<SearchPath>(v, i);
    if !path.spec_is_end() && fuel > 0 {
        if let Some(j) = v.follow(path.next_index()) {
            lemma_last_child_holds(v, j, (fuel - 1) as nat);
        }
    }
}

pub(crate) proof fn lemma_append_child_grows(v: ArchiveView, f: u32, link: u32)
    requires
        v.wf(),
    ensures
        append_child(v, f, link) matches Some(w) ==> grows(v, w),
{
    reveal(append_child);
    if let Some(c) = v.follow(at::<SearchFolder>(v, f).first_child_index) {
        lemma_last_child_holds(v, c, count::<SearchPath>(v));
        if let Some(l) = last_child(v, c, count::<SearchPath>(v)) {
            lemma_with_search_path(v, l, at::<SearchPath>(v, l).with_next(link));
        }
    }
}

/// Giving a new file a search path keeps every path.
pub proof fn law_register_grows(s: Registering, file: NewFile, package: Option<Hash40>)
    requires
        s.archive.wf(),
    ensures
        register(s, file, package) matches Some(t) ==> grows(s.archive, t.archive),
{
    reveal(register);
    let v = s.archive;
    let path = SearchPath::of_file_path(file.filepath);
    law_grows_reflexive(v);
    if v.can_insert_search_path(path) {
        let w = v.insert_search_path(path);
        lemma_insert_search(v, path);
        if let Some(f) = w.find_search_folder(path.spec_parent()) {
            let link = count::<SearchPathLink>(v) as u32;
            lemma_append_child_grows(w, f, link);
            if let Some(x) = append_child(w, f, link) {
                law_grows_transitive(v, w, x);
            }
        }
    }
}

proof fn lemma_register_all_grows(s: Registering, files: Seq<(NewFile, Option<Hash40>)>, n: int)
    requires
        s.archive.wf(),
    ensures
        register_all(s, files, n) matches Some(t) ==> grows(s.archive, t.archive),
    decreases n,
{
    if n <= 0 {
        law_grows_reflexive(s.archive);
    } else {
        lemma_register_all_grows(s, files, n - 1);
        if let Some(t) = register_all(s, files, n - 1) {
            law_register_grows(t, files[n - 1].0, files[n - 1].1);
            if let Some(u) = register(t, files[n - 1].0, files[n - 1].1) {
                law_grows_transitive(s.archive, t.archive, u.archive);
            }
        }
    }
}

pub(crate) proof fn lemma_relocate_grows(v: ArchiveView, i: u32)
    requires
        v.wf(),
    ensures
        relocate(v, i) matches Some(w) ==> grows(v, w),
{
    reveal(relocate);
    let info = at::<FileInfo>(v, i);
    let e = at::<FilePath>(v, info.path).spec_entity();
    let n = count::<FileInfo>(v) as u32;
    if count::<FileInfo>(v) < u32::MAX {
        let w = pushed(v, info);
        lemma_pushed_info(v, info);
        if holds::<FileEntity>(v, e) {
            let x = FileEntity { info: n, ..at::<FileEntity>(v, e) };
            lemma_with_entity(w, e, x);
            law_grows_transitive(v, w, with(w, e, x));
        }
    }
}

proof fn lemma_relocate_run_grows(v: ArchiveView, start: u32, end: int)
    requires
        v.wf(),
    ensures
        relocate_run(v, start, end) matches Some(w) ==> grows(v, w),
    decreases end - start,
{
    if end <= start {
        law_grows_reflexive(v);
    } else {
        lemma_relocate_run_grows(v, start, end - 1);
        if let Some(w) = relocate_run(v, start, end - 1) {
            lemma_relocate_grows(w, (end - 1) as u32);
            if let Some(x) = relocate(w, (end - 1) as u32) {
                law_grows_transitive(v, w, x);
            }
        }
    }
}

pub(crate) proof fn lemma_add_file_grows(v: ArchiveView, file: NewFile, group: u32)
    requires
        v.wf(),
    ensures
        add_file(v, file, group) matches Some(w) ==> grows(v, w),
{
    reveal(add_file);
    if let Some(w) = add_file(v, file, group) {
        let e = count::<FileEntity>(v) as u32;
        let f = count::<FileData>(v) as u32;
        let d = count::<FileDescriptor>(v) as u32;
        let i = count::<FileInfo>(v) as u32;
        let path = FilePath {
            path_and_entity: file.filepath.path_and_entity.with_data(e),
            ..file.filepath
        };
        let x1 = FileEntity { package_or_group: group, info: i };
        let v1 = pushed(v, x1);
        lemma_pushed_entity(v, x1);
        let v2 = v1.insert_file_path(path);
        lemma_insert_path(v1, path);
        law_grows_transitive(v, v1, v2);
        let x3 = FileData::unshared(file.size, 0);
        let v3 = pushed(v2, x3);
        lemma_pushed_data(v2, x3);
        law_grows_transitive(v, v2, v3);
        let x4 = FileDescriptor {
            group,
            file_data: f,
            load_method: FileLoadMethod::Owned(0).raw(),
        };
        let v4 = pushed(v3, x4);
        lemma_pushed_desc(v3, x4);
        law_grows_transitive(v, v3, v4);
        let x5 = FileInfo {
            path: count::<FilePath>(v) as u32,
            entity: e,
            desc: d,
            flags: crate::data::FileInfoFlags { bits: crate::data::INFO_IS_GRAPHICS_ARCHIVE },
        };
        lemma_pushed_info(v4, x5);
        law_grows_transitive(v, v4, pushed(v4, x5));
    }
}

proof fn lemma_add_all_grows(v: ArchiveView, files: Seq<NewFile>, n: int, group: u32)
    requires
        v.wf(),
    ensures
        add_all(v, files, n, group) matches Some(w) ==> grows(v, w),
    decreases n,
{
    if n <= 0 {
        law_grows_reflexive(v);
    } else {
        lemma_add_all_grows(v, files, n - 1, group);
        if let Some(w) = add_all(v, files, n - 1, group) {
            lemma_add_file_grows(w, files[n - 1], group);
            if let Some(x) = add_file(w, files[n - 1], group) {
                law_grows_transitive(v, w, x);
            }
        }
    }
}

pub(crate) proof fn lemma_extend_package_grows(v: ArchiveView, p: u32, files: Seq<NewFile>)
    requires
        v.wf(),
        holds::<FilePackage>(v, p),
    ensures
        extend_package(v, p, files) matches Some(w) ==> grows(v, w),
{
    let package = at::<FilePackage>(v, p);
    let end = package.info_start + package.info_count;
    lemma_relocate_run_grows(v, package.info_start, end);
    if let Some(w) = relocate_run(v, package.info_start, end) {
        let group = package.spec_data_group();
        lemma_add_all_grows(w, files, files.len() as int, group);
        if let Some(x) = add_all(w, files, files.len() as int, group) {
            law_grows_transitive(v, w, x);
            let y = FilePackage {
                info_start: count::<FileInfo>(v) as u32,
                info_count: (package.info_count + files.len()) as u32,
                ..at::<FilePackage>(x, p)
            };
            lemma_with_package(x, p, y);
            law_grows_transitive(v, x, with(x, p, y));
        }
    }
}

proof fn lemma_extend_packages_grows(v: ArchiveView, groups: Groups, n: int)
    requires
        v.wf(),
    ensures
        extend_packages(v, groups, n) matches Some(w) ==> grows(v, w),
    decreases n,
{
    if n <= 0 {
        law_grows_reflexive(v);
    } else {
        lemma_extend_packages_grows(v, groups, n - 1);
        if let Some(w) = extend_packages(v, groups, n - 1) {
            if let Some(p) = w.find_file_package(groups[n - 1].0) {
                lemma_extend_package_grows(w, p, groups[n - 1].1);
                if let Some(x) = extend_package(w, p, groups[n - 1].1) {
                    law_grows_transitive(v, w, x);
                }
            }
        }
    }
}

/// Adding files keeps every path that was there.
pub proof fn law_add_files_grows(v: ArchiveView, files: Seq<(NewFile, Option<Hash40>)>)
    requires
        v.wf(),
    ensures
        add_files(v, files) matches Some(w) ==> grows(v, w),
{
    let s = Registering { archive: v, groups: Seq::empty() };
    lemma_register_all_grows(s, files, files.len() as int);
    if let Some(t) = register_all(s, files, files.len() as int) {
        lemma_extend_packages_grows(t.archive, t.groups, t.groups.len() as int);
        if let Some(w) = extend_packages(t.archive, t.groups, t.groups.len() as int) {
            law_grows_transitive(v, t.archive, w);
        }
    }
}

/// Patching the archive loses nothing: every path that it had is found at the same index, with the same
/// hashes, every package is found at the same index, and no table gets shorter.
pub proof fn law_patched_grows(
    v: ArchiveView,
    prefs: LocalePreferences,
    files: Seq<(Hash40, u32)>,
    new_files: Seq<(NewFile, Option<Hash40>)>,
)
    requires
        v.wf(),
    ensures
        patched(v, prefs, files, new_files) matches Some(w) ==> grows(v, w),
{
    let n = count::<FilePackage>(v) as int;
    law_reshare_groups_grows(v, prefs);
    if let Some(w) = reshare_groups(v, prefs) {
        let s = Patching { archive: w, shares: collected(v, package_infos(v, n)) };
        lemma_replace_all_grows(s, files, files.len() as int, prefs);
        if let Some(t) = replace_all(s, files, files.len() as int, prefs) {
            law_grows_transitive(v, w, t.archive);
            law_add_files_grows(t.archive, new_files);
            if let Some(x) = add_files(t.archive, new_files) {
                law_grows_transitive(v, t.archive, x);
            }
        }
    }
}

/// Serializing an archive that has grown loses nothing either.
proof fn lemma_serialized_grows(v: ArchiveView, w: ArchiveView, read: ArchiveView, h: Hash40)
    requires
        grows(v, w),
        balanced(w),
        w.serializable(),
        read.resource.blob() == w.reserialized().resource.blob(),
        read.resource.shaped(),
        read.resource.fresh(),
        read.search.blob() == w.reserialized().search.blob(),
        read.search.shaped(),
        read.search.fresh(),
    ensures
        read == w.reserialized(),
        read.wf(),
        v.find_file_path(h) matches Some(i) ==> i < 0x100_0000 ==> read.find_file_path(h) == Some(i)
            && same_hashes(at::<FilePath>(v, i), at::<FilePath>(read, i)),
{
    law_archive_round_trip(w, read);
    if let Some(i) = v.find_file_path(h) {
        if i < 0x100_0000 {
            assert(w.find_file_path(h) == Some(i));
            assert(holds::<FilePath>(v, i));
            assert(holds::<FilePath>(w, i));
            lemma_path_kept(w, h, i);
        }
    }
}

proof fn lemma_same_table(a: TableView<FilePath>, b: TableView<FilePath>, i: int)
    requires
        b.items() == a.items(),
        0 <= i < a.len(),
    ensures
        b.len() == a.len(),
        b.at(i) == a.at(i),
{
    assert(a.items().len() == a.len() && b.items().len() == b.len());
    law_table_is_sequence(a, i, a.at(i));
    law_table_is_sequence(b, i, a.at(i));
}

#[verifier::spinoff_prover]
proof fn lemma_path_kept(w: ArchiveView, h: Hash40, i: u32)
    requires
        w.wf(),
        w.serializable(),
        w.find_file_path(h) == Some(i),
        i < 0x100_0000,
    ensures
        w.reserialized().find_file_path(h) == Some(i),
        at::<FilePath>(w.reserialized(), i) == at::<FilePath>(w, i),
{
    law_reserialized_contents(w, h.0);
    lemma_same_table(w.resource.file_path, w.reserialized().resource.file_path, i as int);
}

/// Reading the bytes that patching an archive ends with gives back the patched archive, and every path
/// that the archive had is found in it at the same index. Indices are stored in 24 bits.
pub proof fn law_patched_read_back(
    v: ArchiveView,
    prefs: LocalePreferences,
    files: Seq<(Hash40, u32)>,
    new_files: Seq<(NewFile, Option<Hash40>)>,
    read: ArchiveView,
    h: Hash40,
)
    requires
        v.wf(),
        balanced(v),
        patched(v, prefs, files, new_files) is Some,
        patched(v, prefs, files, new_files)->0.serializable(),
        read.resource.blob() == patched(v, prefs, files, new_files)->0.reserialized().resource.blob(),
        read.resource.shaped(),
        read.resource.fresh(),
        read.search.blob() == patched(v, prefs, files, new_files)->0.reserialized().search.blob(),
        read.search.shaped(),
        read.search.fresh(),
    ensures
        read == patched(v, prefs, files, new_files)->0.reserialized(),
        read.wf(),
        v.find_file_path(h) matches Some(i) ==> i < 0x100_0000 ==> read.find_file_path(h) == Some(i)
            && same_hashes(at::<FilePath>(v, i), at::<FilePath>(read, i)),
{
    let w = patched(v, prefs, files, new_files)->0;
    law_patched_grows(v, prefs, files, new_files);
    assert(w.wf() && balanced(w));
    lemma_serialized_grows(v, w, read, h);
}

/// Patching the archive for mods is patching it with the files that the mods replace and those that they
/// add, whose packages are looked for once files were replaced. So nothing is lost by it either.
pub proof fn law_patched_for_mods(
    v: ArchiveView,
    prefs: LocalePreferences,
    mods: FileSystemView,
    names: SlabView,
)
    requires
        v.wf(),
    ensures
        patched_for_mods(v, prefs, mods, names) matches Some(w) ==> grows(v, w) && patched(
            v,
            prefs,
            replacements(mods, prefs),
            additions(replaced(v, prefs, replacements(mods, prefs))->0, names, mods.new_files)->0,
        ) == Some(w),
{
    if patched_for_mods(v, prefs, mods, names) is Some {
        law_patched_grows(
            v,
            prefs,
            replacements(mods, prefs),
            additions(replaced(v, prefs, replacements(mods, prefs))->0, names, mods.new_files)->0,
        );
    }
}

} // verus!
