//! What paths lead to after all steps of patching.

use crate::access::{at, count, has_run, holds, law_stored, pushed, with};
use crate::add_files::{
    add_all, add_file, add_files, append_child, extend_package, extend_packages, register, register_all,
    relocate, relocate_run, Groups, NewFile, Registering,
};
use crate::archive::ArchiveView;
use crate::data::{
    FileData, FileDescriptor, FileEntity, FileGroup, FileInfo, FileInfoFlags, FileLoadMethod,
    FilePackage, FilePath, INFO_IS_GRAPHICS_ARCHIVE, INFO_IS_RESHARED,
};
use crate::hash40::Hash40;
use crate::load_laws::{
    data_index, is_replaceable, law_added_loads, law_replaced_frame, law_replaced_loads, lemma_load_method_rerouted,
    lemma_same_route, lemma_shared_flags, loading_info, rerouted, same_entities, stays_apart,
};
use crate::locale::LocalePreferences;
use crate::lookup::law_insert_file_path;
use crate::patch::patched;
use crate::patch_laws::{
    grows, law_add_files_grows, law_grows_transitive, law_replace_grows, law_reshare_groups_grows,
    law_reshare_info_grows, law_register_grows, lemma_relocate_grows, lemma_add_file_grows,
    lemma_replace_all_grows,
};
use crate::reshare::{
    renamed_path, reshare_groups, reshare_info, reshare_package, reshare_packages, reshare_run,
    reshared_path, with_load_method, Resharing,
};
use crate::share::{collected, package_infos};
use crate::unshare::{replace, replace_all, Patching};
use vstd::prelude::*;

verus! {

/// Every path that led to data leads to the same data.
pub open spec fn same_routes(v: ArchiveView, w: ArchiveView, prefs: LocalePreferences) -> bool {
    forall|p: u32| #[trigger]
        data_index(v, p, prefs) is Some ==> data_index(w, p, prefs) == data_index(v, p, prefs)
            && at::<FileData>(w, data_index(v, p, prefs)->0) == at::<FileData>(
            v,
            data_index(v, p, prefs)->0,
        )
}

proof fn lemma_routes_transitive(u: ArchiveView, v: ArchiveView, w: ArchiveView, prefs: LocalePreferences)
    requires
        same_routes(u, v, prefs),
        same_routes(v, w, prefs),
    ensures
        same_routes(u, w, prefs),
{
    assert forall|p: u32| #[trigger] data_index(u, p, prefs) is Some implies data_index(w, p, prefs)
        == data_index(u, p, prefs) && at::<FileData>(w, data_index(u, p, prefs)->0) == at::<FileData>(
        u,
        data_index(u, p, prefs)->0,
    ) by {
        assert(data_index(v, p, prefs) is Some);
    }
}

proof fn lemma_rerouted_routes(v: ArchiveView, w: ArchiveView, prefs: LocalePreferences)
    requires
        rerouted(v, w),
        same_entities(v, w),
    ensures
        same_routes(v, w, prefs),
{
    assert forall|p: u32| #[trigger] data_index(v, p, prefs) is Some implies data_index(w, p, prefs)
        == data_index(v, p, prefs) && at::<FileData>(w, data_index(v, p, prefs)->0) == at::<FileData>(
        v,
        data_index(v, p, prefs)->0,
    ) by {
        lemma_same_route(v, w, p, prefs);
    }
}

proof fn lemma_routes_insert_path(v: ArchiveView, path: FilePath, prefs: LocalePreferences)
    requires
        v.wf(),
        v.can_insert_file_path(path),
    ensures
        same_routes(v, v.insert_file_path(path), prefs),
{
    law_stored(v, 0, path);
}

proof fn lemma_reshare_info_routes(s: Resharing, i: u32, prefs: LocalePreferences)
    requires
        s.archive.wf(),
        holds::<FileInfo>(s.archive, i),
    ensures
        reshare_info(s, i, prefs) matches Some(t) ==> same_routes(s.archive, t.archive, prefs),
{
    reveal(reshare_info);
    let v = s.archive;
    let info = at::<FileInfo>(v, i);
    if let Some((t, p)) = renamed_path(s, info.path) {
        let path = reshared_path(at::<FilePath>(v, info.path));
        if !s.renamed.contains_key(info.path) {
            lemma_routes_insert_path(v, path, prefs);
            law_insert_file_path(v, path, path.spec_path());
        }
        assert(same_routes(v, t.archive, prefs));
        let x = FileInfo { path: p, flags: info.flags.plus(INFO_IS_RESHARED), ..info };
        let w = with(t.archive, i, x);
        lemma_shared_flags(info.flags);
        law_stored(t.archive, i, x);
        lemma_routes_info(t.archive, i, x, prefs);
        lemma_routes_transitive(v, t.archive, w, prefs);
        lemma_load_method_rerouted(w, i, FileLoadMethod::PackageSkip(i), prefs);
        if let Some(y) = with_load_method(w, i, FileLoadMethod::PackageSkip(i), prefs) {
            lemma_rerouted_routes(w, y, prefs);
            lemma_routes_transitive(v, w, y, prefs);
        }
    }
}

/// An info that keeps its descriptor in force.
proof fn lemma_routes_info(v: ArchiveView, i: u32, x: FileInfo, prefs: LocalePreferences)
    requires
        v.wf(),
        holds::<FileInfo>(v, i),
        x.spec_desc_index(prefs) == at::<FileInfo>(v, i).spec_desc_index(prefs),
    ensures
        same_routes(v, with(v, i, x), prefs),
{
    law_stored(v, i, x);
}

proof fn lemma_reshare_run_routes(s: Resharing, start: u32, end: int, prefs: LocalePreferences)
    requires
        s.archive.wf(),
        end <= count::<FileInfo>(s.archive),
    ensures
        reshare_run(s, start, end, prefs) matches Some(t) ==> same_routes(s.archive, t.archive, prefs)
            && grows(s.archive, t.archive),
    decreases end - start,
{
    law_stored(s.archive, 0, at::<FileInfo>(s.archive, 0));
    if end > start {
        lemma_reshare_run_routes(s, start, end - 1, prefs);
        if let Some(t) = reshare_run(s, start, end - 1, prefs) {
            lemma_reshare_info_routes(t, (end - 1) as u32, prefs);
            law_reshare_info_grows(t, (end - 1) as u32, prefs);
            if let Some(u) = reshare_info(t, (end - 1) as u32, prefs) {
                lemma_routes_transitive(s.archive, t.archive, u.archive, prefs);
                law_grows_transitive(s.archive, t.archive, u.archive);
            }
        }
    }
}

proof fn lemma_reshare_packages_routes(s: Resharing, n: int, prefs: LocalePreferences)
    requires
        s.archive.wf(),
    ensures
        reshare_packages(s, n, prefs) matches Some(t) ==> same_routes(s.archive, t.archive, prefs)
            && grows(s.archive, t.archive),
    decreases n,
{
    if n > 0 {
        lemma_reshare_packages_routes(s, n - 1, prefs);
        if let Some(t) = reshare_packages(s, n - 1, prefs) {
            reveal(reshare_package);
            let v = t.archive;
            let p = (n - 1) as u32;
            let g = at::<FileGroup>(v, at::<FilePackage>(v, p).spec_data_group()).redirection;
            let group = at::<FileGroup>(v, g);
            let t2 = Resharing { managed: t.managed.insert(g), ..t };
            if has_run::<FileInfo>(v, group.child_start, group.child_count) {
                lemma_reshare_run_routes(
                    t2,
                    group.child_start,
                    group.child_start + group.child_count,
                    prefs,
                );
            }
            if let Some(u) = reshare_package(t, p, prefs) {
                assert(same_routes(v, u.archive, prefs) && grows(v, u.archive));
                lemma_routes_transitive(s.archive, v, u.archive, prefs);
                law_grows_transitive(s.archive, v, u.archive);
            }
        }
    }
}

/// Giving the files of groups paths of their own leaves what every path leads to.
pub proof fn law_reshare_routes(v: ArchiveView, prefs: LocalePreferences)
    requires
        v.wf(),
    ensures
        reshare_groups(v, prefs) matches Some(w) ==> same_routes(v, w, prefs),
{
    lemma_reshare_packages_routes(
        Resharing { archive: v, renamed: Map::empty(), managed: Set::empty() },
        count::<FilePackage>(v) as int,
        prefs,
    );
}

proof fn lemma_same_resource_routes(v: ArchiveView, w: ArchiveView, prefs: LocalePreferences)
    requires
        w.resource == v.resource,
    ensures
        same_routes(v, w, prefs),
{
}

proof fn lemma_register_routes(s: Registering, file: NewFile, package: Option<Hash40>, prefs: LocalePreferences)
    requires
        s.archive.wf(),
    ensures
        register(s, file, package) matches Some(t) ==> same_routes(s.archive, t.archive, prefs),
{
    reveal(register);
    reveal(append_child);
    if let Some(t) = register(s, file, package) {
        assert(t.archive.resource == s.archive.resource);
        lemma_same_resource_routes(s.archive, t.archive, prefs);
    }
}

proof fn lemma_register_all_routes(
    s: Registering,
    files: Seq<(NewFile, Option<Hash40>)>,
    n: int,
    prefs: LocalePreferences,
)
    requires
        s.archive.wf(),
    ensures
        register_all(s, files, n) matches Some(t) ==> same_routes(s.archive, t.archive, prefs)
            && t.archive.wf(),
    decreases n,
{
    if n > 0 {
        lemma_register_all_routes(s, files, n - 1, prefs);
        if let Some(t) = register_all(s, files, n - 1) {
            lemma_register_routes(t, files[n - 1].0, files[n - 1].1, prefs);
            law_register_grows(t, files[n - 1].0, files[n - 1].1);
            if let Some(u) = register(t, files[n - 1].0, files[n - 1].1) {
                lemma_routes_transitive(s.archive, t.archive, u.archive, prefs);
            }
        }
    }
}

proof fn lemma_relocate_routes(v: ArchiveView, i: u32, prefs: LocalePreferences)
    requires
        v.wf(),
    ensures
        relocate(v, i) matches Some(w) ==> same_routes(v, w, prefs),
{
    reveal(relocate);
    if relocate(v, i) is Some {
        let info = at::<FileInfo>(v, i);
        let e = at::<FilePath>(v, info.path).spec_entity();
        let entity = at::<FileEntity>(v, e);
        let n = count::<FileInfo>(v) as u32;
        let w = pushed(v, info);
        law_stored(v, 0, info);
        assert(same_routes(v, w, prefs));
        if entity.info == i {
            let x = FileEntity { info: n, ..entity };
            law_stored(w, e, x);
            let y = with(w, e, x);
            assert forall|p: u32| #[trigger] data_index(w, p, prefs) is Some implies data_index(
                y,
                p,
                prefs,
            ) == data_index(w, p, prefs) && at::<FileData>(y, data_index(w, p, prefs)->0) == at::<
                FileData,
            >(w, data_index(w, p, prefs)->0) by {
                if at::<FilePath>(w, p).spec_entity() == e {
                    assert(loading_info(w, p) == i);
                    assert(loading_info(y, p) == n);
                    assert(at::<FileInfo>(y, n) == info);
                    assert(at::<FileInfo>(w, i) == info);
                }
            }
            lemma_routes_transitive(v, w, y, prefs);
        }
    }
}

proof fn lemma_relocate_run_routes(v: ArchiveView, start: u32, end: int, prefs: LocalePreferences)
    requires
        v.wf(),
    ensures
        relocate_run(v, start, end) matches Some(w) ==> same_routes(v, w, prefs) && w.wf(),
    decreases end - start,
{
    if end > start {
        lemma_relocate_run_routes(v, start, end - 1, prefs);
        if let Some(w) = relocate_run(v, start, end - 1) {
            lemma_relocate_routes(w, (end - 1) as u32, prefs);
            lemma_relocate_grows(w, (end - 1) as u32);
            if let Some(x) = relocate(w, (end - 1) as u32) {
                lemma_routes_transitive(v, w, x, prefs);
            }
        }
    }
}

proof fn lemma_add_file_routes(v: ArchiveView, file: NewFile, group: u32, prefs: LocalePreferences)
    requires
        v.wf(),
    ensures
        add_file(v, file, group) matches Some(w) ==> same_routes(v, w, prefs),
{
    reveal(add_file);
    if let Some(w) = add_file(v, file, group) {
        let e = count::<FileEntity>(v) as u32;
        let p = count::<FilePath>(v) as u32;
        let f = count::<FileData>(v) as u32;
        let d = count::<FileDescriptor>(v) as u32;
        let i = count::<FileInfo>(v) as u32;
        let path = FilePath {
            path_and_entity: file.filepath.path_and_entity.with_data(e),
            ..file.filepath
        };
        let x1 = FileEntity { package_or_group: group, info: i };
        let v1 = pushed(v, x1);
        law_stored(v, 0, x1);
        law_insert_file_path(v1, path, Hash40(0));
        let v2 = v1.insert_file_path(path);
        let x3 = FileData::unshared(file.size, 0);
        let v3 = pushed(v2, x3);
        law_stored(v2, 0, x3);
        let x4 = FileDescriptor {
            group,
            file_data: f,
            load_method: FileLoadMethod::Owned(0).raw(),
        };
        let v4 = pushed(v3, x4);
        law_stored(v3, 0, x4);
        let x5 = FileInfo {
            path: p,
            entity: e,
            desc: d,
            flags: FileInfoFlags { bits: INFO_IS_GRAPHICS_ARCHIVE },
        };
        law_stored(v4, 0, x5);
    }
}

proof fn lemma_add_all_routes(
    v: ArchiveView,
    files: Seq<NewFile>,
    n: int,
    group: u32,
    prefs: LocalePreferences,
)
    requires
        v.wf(),
    ensures
        add_all(v, files, n, group) matches Some(w) ==> same_routes(v, w, prefs) && w.wf(),
    decreases n,
{
    if n > 0 {
        lemma_add_all_routes(v, files, n - 1, group, prefs);
        if let Some(w) = add_all(v, files, n - 1, group) {
            lemma_add_file_routes(w, files[n - 1], group, prefs);
            lemma_add_file_grows(w, files[n - 1], group);
            if let Some(x) = add_file(w, files[n - 1], group) {
                lemma_routes_transitive(v, w, x, prefs);
            }
        }
    }
}

pub(crate) proof fn lemma_extend_package_routes(
    v: ArchiveView,
    p: u32,
    files: Seq<NewFile>,
    prefs: LocalePreferences,
)
    requires
        v.wf(),
        holds::<FilePackage>(v, p),
    ensures
        extend_package(v, p, files) matches Some(w) ==> same_routes(v, w, prefs) && w.wf(),
{
    let package = at::<FilePackage>(v, p);
    let group = package.spec_data_group();
    let end = package.info_start + package.info_count;
    lemma_relocate_run_routes(v, package.info_start, end, prefs);
    if let Some(x) = relocate_run(v, package.info_start, end) {
        lemma_add_all_routes(x, files, files.len() as int, group, prefs);
        if let Some(y) = add_all(x, files, files.len() as int, group) {
            lemma_routes_transitive(v, x, y, prefs);
            if let Some(z) = extend_package(v, p, files) {
                let record = FilePackage {
                    info_start: count::<FileInfo>(v) as u32,
                    info_count: (package.info_count + files.len()) as u32,
                    ..at::<FilePackage>(y, p)
                };
                assert(z == with(y, p, record));
                crate::patch_laws::lemma_extend_package_grows(v, p, files);
                assert(same_routes(y, z, prefs));
                lemma_routes_transitive(v, y, z, prefs);
            }
        }
    }
}

proof fn lemma_extend_packages_routes(v: ArchiveView, groups: Groups, n: int, prefs: LocalePreferences)
    requires
        v.wf(),
    ensures
        extend_packages(v, groups, n) matches Some(w) ==> same_routes(v, w, prefs) && w.wf(),
    decreases n,
{
    if n > 0 {
        lemma_extend_packages_routes(v, groups, n - 1, prefs);
        if let Some(w) = extend_packages(v, groups, n - 1) {
            if let Some(p) = w.find_file_package(groups[n - 1].0) {
                let files = groups[n - 1].1;
                lemma_extend_package_routes(w, p, files, prefs);
                if let Some(x) = extend_package(w, p, files) {
                    lemma_routes_transitive(v, w, x, prefs);
                }
            }
        }
    }
}

/// Adding files leaves what every path leads to.
pub proof fn law_add_files_routes(
    v: ArchiveView,
    files: Seq<(NewFile, Option<Hash40>)>,
    prefs: LocalePreferences,
)
    requires
        v.wf(),
    ensures
        add_files(v, files) matches Some(w) ==> same_routes(v, w, prefs),
{
    let s = Registering { archive: v, groups: Seq::empty() };
    lemma_register_all_routes(s, files, files.len() as int, prefs);
    if let Some(t) = register_all(s, files, files.len() as int) {
        lemma_extend_packages_routes(t.archive, t.groups, t.groups.len() as int, prefs);
        if let Some(w) = extend_packages(t.archive, t.groups, t.groups.len() as int) {
            lemma_routes_transitive(v, t.archive, w, prefs);
        }
    }
}

proof fn lemma_all_added(v: ArchiveView, files: Seq<NewFile>, n: int, group: u32, prefs: LocalePreferences)
    requires
        v.wf(),
        0 <= n <= files.len(),
    ensures
        add_all(v, files, n, group) matches Some(w) ==> w.wf() && count::<FileEntity>(w) == count::<
            FileEntity,
        >(v) + n && (count::<FileEntity>(w) <= 0x100_0000 ==> forall|j: int|
            0 <= j < n ==> leads_to(
                w,
                (#[trigger] files[j]).filepath.spec_path(),
                files[j].size,
                prefs,
            )),
    decreases n,
{
    if n > 0 {
        lemma_all_added(v, files, n - 1, group, prefs);
        if let Some(w) = add_all(v, files, n - 1, group) {
            let file = files[n - 1];
            lemma_add_file_routes(w, file, group, prefs);
            lemma_add_file_grows(w, file, group);
            if let Some(x) = add_file(w, file, group) {
                assert(count::<FileEntity>(x) == count::<FileEntity>(w) + 1) by {
                    reveal(add_file);
                    law_stored(
                        w,
                        0,
                        FileEntity { package_or_group: group, info: count::<FileInfo>(w) as u32 },
                    );
                }
                if count::<FileEntity>(x) <= 0x100_0000 {
                    law_added_loads(w, file, group, prefs);
                    assert forall|j: int| 0 <= j < n implies leads_to(
                        x,
                        (#[trigger] files[j]).filepath.spec_path(),
                        files[j].size,
                        prefs,
                    ) by {
                        if j < n - 1 {
                            assert(leads_to(w, files[j].filepath.spec_path(), files[j].size, prefs));
                            assert(w.find_file_path(files[j].filepath.spec_path()) is Some);
                        }
                    }
                }
            }
        }
    }
}

/// The paths of files that were added to a package lead to data of their sizes, as long as entities can be
/// told apart in 24 bits.
pub proof fn law_extended_routes(v: ArchiveView, p: u32, files: Seq<NewFile>, prefs: LocalePreferences)
    requires
        v.wf(),
        holds::<FilePackage>(v, p),
    ensures
        extend_package(v, p, files) matches Some(w) ==> count::<FileEntity>(w) <= 0x100_0000
            ==> forall|j: int|
            0 <= j < files.len() ==> leads_to(
                w,
                (#[trigger] files[j]).filepath.spec_path(),
                files[j].size,
                prefs,
            ),
{
    let package = at::<FilePackage>(v, p);
    let group = package.spec_data_group();
    let end = package.info_start + package.info_count;
    lemma_relocate_run_routes(v, package.info_start, end, prefs);
    if let Some(x) = relocate_run(v, package.info_start, end) {
        lemma_all_added(x, files, files.len() as int, group, prefs);
        if let Some(y) = add_all(x, files, files.len() as int, group) {
            if let Some(w) = extend_package(v, p, files) {
                assert(w.resource.file_path == y.resource.file_path);
                assert(same_routes(y, w, prefs));
                assert forall|j: int|
                    0 <= j < files.len() && count::<FileEntity>(w)
                        <= 0x100_0000 implies leads_to(
                    w,
                    (#[trigger] files[j]).filepath.spec_path(),
                    files[j].size,
                    prefs,
                ) by {
                    assert(leads_to(y, files[j].filepath.spec_path(), files[j].size, prefs));
                    assert(data_index(
                        y,
                        y.find_file_path(files[j].filepath.spec_path())->0,
                        prefs,
                    ) is Some);
                }
            }
        }
    }
}

/// Each of the first `n` files can be replaced when it is its turn, and stays apart from those that were
/// replaced before.
pub open spec fn untangled(s: Patching, files: Seq<(Hash40, u32)>, n: int, prefs: LocalePreferences) -> bool
    decreases n,
{
    n <= 0 || {
        &&& untangled(s, files, n - 1, prefs)
        &&& replace_all(s, files, n - 1, prefs) matches Some(t) ==> {
            &&& count::<FileEntity>(t.archive) < 0x100_0000
            &&& is_replaceable(t, files[n - 1].0)
            &&& forall|j: int|
                0 <= j < n - 1 ==> stays_apart(
                    t,
                    files[n - 1].0,
                    (#[trigger] t.archive.find_file_path(files[j].0))->0,
                    prefs,
                )
        }
    }
}

/// The path with this hash leads to data of this size.
pub open spec fn leads_to(v: ArchiveView, path: Hash40, size: u32, prefs: LocalePreferences) -> bool {
    &&& v.find_file_path(path) is Some
    &&& data_index(v, v.find_file_path(path)->0, prefs) is Some
    &&& at::<FileData>(v, data_index(v, v.find_file_path(path)->0, prefs)->0).decompressed_size == size
}

/// After files that stay apart were replaced, each of their paths leads to data of the size of its
/// replacement.
pub proof fn law_all_replaced(s: Patching, files: Seq<(Hash40, u32)>, n: int, prefs: LocalePreferences)
    requires
        s.archive.wf(),
        0 <= n <= files.len(),
        untangled(s, files, n, prefs),
    ensures
        replace_all(s, files, n, prefs) matches Some(t) ==> forall|j: int|
            0 <= j < n ==> leads_to(t.archive, (#[trigger] files[j]).0, files[j].1, prefs),
    decreases n,
{
    if n > 0 {
        law_all_replaced(s, files, n - 1, prefs);
        lemma_replace_all_grows(s, files, n - 1, prefs);
        if let Some(t) = replace_all(s, files, n - 1, prefs) {
            let (path, size) = files[n - 1];
            law_replace_grows(t, path, size, prefs);
            if let Some(u) = replace(t, path, size, prefs) {
                law_replaced_loads(t, path, size, prefs);
                assert forall|j: int| 0 <= j < n implies leads_to(
                    u.archive,
                    (#[trigger] files[j]).0,
                    files[j].1,
                    prefs,
                ) by {
                    assert(t.archive.find_file_path(files[j].0) is Some);
                    if j < n - 1 {
                        let p = t.archive.find_file_path(files[j].0)->0;
                        law_replaced_frame(t, path, size, p, prefs);
                    }
                }
            }
        }
    }
}

/// In a patched archive, the path of every file that was replaced leads to data of the size of its
/// replacement, as long as the files stay apart.
pub proof fn law_patched_routes(
    v: ArchiveView,
    prefs: LocalePreferences,
    files: Seq<(Hash40, u32)>,
    new_files: Seq<(NewFile, Option<Hash40>)>,
)
    requires
        v.wf(),
        reshare_groups(v, prefs) matches Some(w) ==> untangled(
            Patching {
                archive: w,
                shares: collected(v, package_infos(v, count::<FilePackage>(v) as int)),
            },
            files,
            files.len() as int,
            prefs,
        ),
    ensures
        patched(v, prefs, files, new_files) matches Some(w) ==> forall|j: int|
            0 <= j < files.len() ==> leads_to(w, (#[trigger] files[j]).0, files[j].1, prefs),
{
    let n = count::<FilePackage>(v) as int;
    law_reshare_groups_grows(v, prefs);
    if let Some(w) = reshare_groups(v, prefs) {
        let s = Patching { archive: w, shares: collected(v, package_infos(v, n)) };
        lemma_replace_all_grows(s, files, files.len() as int, prefs);
        law_all_replaced(s, files, files.len() as int, prefs);
        if let Some(t) = replace_all(s, files, files.len() as int, prefs) {
            law_add_files_grows(t.archive, new_files);
            law_add_files_routes(t.archive, new_files, prefs);
            if let Some(x) = add_files(t.archive, new_files) {
                assert forall|j: int| 0 <= j < files.len() implies leads_to(
                    x,
                    (#[trigger] files[j]).0,
                    files[j].1,
                    prefs,
                ) by {
                    assert(leads_to(t.archive, files[j].0, files[j].1, prefs));
                    assert(t.archive.find_file_path(files[j].0) is Some);
                }
            }
        }
    }
}

} // verus!
