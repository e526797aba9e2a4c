//! What becomes of each file that is added to the archive.

use crate::access::{at, count, holds, law_stored, pushed, with};
use crate::add_files::{
    add_all, add_file, add_files, append_child, extend_package, extend_packages, group_position, grouped,
    lemma_group_position, register, register_all, relocate, relocate_run, Groups, NewFile, Registering,
};
use crate::archive::ArchiveView;
use crate::data::{
    law_hash_with_data, law_load_method, FileData, FileDescriptor, FileEntity, FileInfo,
    FileLoadMethod, FilePackage, FilePath, SearchPath, SearchPathLink,
};
use crate::hash40::{law_hash40_wf, spec_trim, Hash40};
use crate::locale::LocalePreferences;
use crate::lookup::law_insert_file_path;
use crate::patch::{patched, replaced};
use crate::patch_laws::{
    grows, law_add_files_grows, law_grows_reflexive, law_grows_transitive, law_patched_grows,
    law_register_grows, lemma_add_file_grows, lemma_extend_package_grows, lemma_relocate_grows,
};
use crate::route_laws::{law_extended_routes, leads_to, lemma_extend_package_routes, same_routes};
use crate::search_laws::{
    is_child, law_registered_search, lemma_children_kept, lemma_search_reflexive, lemma_search_transitive,
    search_kept,
};
use vstd::prelude::*;
use vstd::utf8::encode_utf8;

verus! {

/// Is this file one that gets added? The archive does not have it, its package is known, and its folder
/// is there.
pub open spec fn is_new(v: ArchiveView, file: (NewFile, Option<Hash40>)) -> bool {
    &&& v.find_file_path(file.0.filepath.spec_path()) is None
    &&& file.1 is Some
    &&& v.find_search_folder(spec_trim(file.0.filepath.spec_parent(), encode_utf8("/"@))) is Some
}

/// Does this file wait to be added to the package with hash `h`?
pub open spec fn waits(groups: Groups, h: Hash40, file: NewFile) -> bool {
    exists|g: int, k: int|
        0 <= g < groups.len() && 0 <= k < groups[g].1.len() && groups[g].0 == h && #[trigger] groups[g].1[k]
            == file
}

/// A file that is put to others waits with them. All that waited still do, and nothing else does.
pub proof fn law_grouped(groups: Groups, package: Hash40, file: NewFile, h: Hash40, other: NewFile)
    ensures
        waits(grouped(groups, package, file), h, other) <==> waits(groups, h, other) || h == package
            && other == file,
{
    lemma_group_position(groups, package);
    let p = group_position(groups, package);
    let r = grouped(groups, package, file);
    if waits(groups, h, other) {
        let (g, k) = choose|g: int, k: int|
            0 <= g < groups.len() && 0 <= k < groups[g].1.len() && groups[g].0 == h
                && #[trigger] groups[g].1[k] == other;
        assert(r[g].1[k] == other);
        assert(waits(r, h, other));
    }
    if p < groups.len() {
        assert(r[p].1[groups[p].1.len() as int] == file);
    } else {
        assert(r[p].1[0] == file);
    }
    assert(waits(r, package, file));
    if waits(r, h, other) {
        let (g, k) = choose|g: int, k: int|
            0 <= g < r.len() && 0 <= k < r[g].1.len() && r[g].0 == h && #[trigger] r[g].1[k] == other;
        if g != p {
            assert(groups[g].1[k] == other);
        } else if p < groups.len() && k < groups[p].1.len() {
            assert(groups[g].1[k] == other);
        }
    }
}

pub(crate) proof fn lemma_new_search_path(path: FilePath)
    ensures
        SearchPath::of_file_path(path).spec_path() == path.spec_path(),
        SearchPath::of_file_path(path).spec_parent() == spec_trim(path.spec_parent(), encode_utf8("/"@)),
{
    law_hash40_wf(path.spec_parent(), path.spec_parent(), encode_utf8("/"@));
    law_hash_with_data(spec_trim(path.spec_parent(), encode_utf8("/"@)), 0);
    law_hash_with_data(path.spec_path(), 0);
    crate::data::law_new_search_path(
        path.spec_path(),
        spec_trim(path.spec_parent(), encode_utf8("/"@)),
        path.spec_file_name(),
        path.spec_extension(),
    );
}

/// After the first `n` files were given search paths, those that get added wait for their packages, and no
/// others do.
proof fn lemma_registered(v: ArchiveView, files: Seq<(NewFile, Option<Hash40>)>, n: int)
    requires
        v.wf(),
        0 <= n <= files.len(),
    ensures
        register_all(Registering { archive: v, groups: Seq::empty() }, files, n) matches Some(t) ==> {
            &&& grows(v, t.archive)
            &&& t.archive.resource == v.resource
            &&& t.archive.search.search_folder == v.search.search_folder
            &&& t.archive.search.search_folder_lookup == v.search.search_folder_lookup
            &&& forall|j: int|
                0 <= j < n && is_new(v, #[trigger] files[j]) ==> waits(
                    t.groups,
                    files[j].1->0,
                    files[j].0,
                )
            &&& forall|h: Hash40, file: NewFile| #[trigger]
                waits(t.groups, h, file) ==> is_new(v, (file, Some(h))) && files.contains((file, Some(h)))
        },
    decreases n,
{
    let s = Registering { archive: v, groups: Seq::empty() };
    if n > 0 {
        lemma_registered(v, files, n - 1);
        if let Some(t) = register_all(s, files, n - 1) {
            let (file, package) = files[n - 1];
            law_register_grows(t, file, package);
            lemma_new_search_path(file.filepath);
            reveal(register);
            reveal(append_child);
            if let Some(u) = register(t, file, package) {
                law_grows_transitive(v, t.archive, u.archive);
                assert(u.archive.resource == v.resource);
                let added = is_new(v, files[n - 1]);
                assert(u.groups == if added {
                    grouped(t.groups, package->0, file)
                } else {
                    t.groups
                });
                assert forall|j: int| 0 <= j < n && is_new(v, #[trigger] files[j]) implies waits(
                    u.groups,
                    files[j].1->0,
                    files[j].0,
                ) by {
                    if added {
                        law_grouped(t.groups, package->0, file, files[j].1->0, files[j].0);
                    }
                }
                assert forall|h: Hash40, f: NewFile| #[trigger] waits(u.groups, h, f) implies is_new(
                    v,
                    (f, Some(h)),
                ) && files.contains((f, Some(h))) by {
                    if added {
                        law_grouped(t.groups, package->0, file, h, f);
                        assert(files[n - 1] == (file, Some(package->0)));
                    }
                }
            }
        }
    } else {
        lemma_nothing_waits(v);
    }
}

proof fn lemma_nothing_waits(v: ArchiveView)
    requires
        v.wf(),
    ensures
        grows(v, v),
        forall|h: Hash40, file: NewFile| !#[trigger] waits(Seq::empty(), h, file),
{
    law_grows_reflexive(v);
}

/// The infos of `v` are the first infos of `w`, and packages are found as they were.
pub open spec fn infos_kept(v: ArchiveView, w: ArchiveView) -> bool {
    &&& count::<FileInfo>(v) <= count::<FileInfo>(w)
    &&& forall|k: u32| #[trigger]
        holds::<FileInfo>(v, k) ==> at::<FileInfo>(w, k) == at::<FileInfo>(v, k)
    &&& w.resource.file_package_lookup == v.resource.file_package_lookup
    &&& count::<FilePackage>(w) == count::<FilePackage>(v)
}

proof fn lemma_relocated(v: ArchiveView, start: u32, end: int)
    requires
        v.wf(),
        start <= end <= count::<FileInfo>(v),
    ensures
        relocate_run(v, start, end) matches Some(w) ==> {
            &&& grows(v, w)
            &&& infos_kept(v, w)
            &&& w.resource.file_package == v.resource.file_package
            &&& count::<FileInfo>(w) == count::<FileInfo>(v) + (end - start)
            &&& forall|k: int|
                0 <= k < end - start ==> #[trigger] at::<FileInfo>(w, (count::<FileInfo>(v) + k) as u32)
                    == at::<FileInfo>(v, (start + k) as u32)
        },
    decreases end - start,
{
    law_stored(v, 0, at::<FileInfo>(v, 0));
    if end > start {
        lemma_relocated(v, start, end - 1);
        if let Some(w) = relocate_run(v, start, end - 1) {
            let i = (end - 1) as u32;
            lemma_relocate_grows(w, i);
            reveal(relocate);
            if let Some(x) = relocate(w, i) {
                law_grows_transitive(v, w, x);
                let info = at::<FileInfo>(w, i);
                law_stored(w, 0, info);
                let m = count::<FileInfo>(v);
                assert(x.resource.file_info == pushed(w, info).resource.file_info);
                assert forall|k: u32| #[trigger] holds::<FileInfo>(v, k) implies at::<FileInfo>(x, k)
                    == at::<FileInfo>(v, k) by {
                    assert(holds::<FileInfo>(w, k));
                }
                assert(holds::<FileInfo>(v, i));
                assert forall|k: int| 0 <= k < end - start implies #[trigger] at::<FileInfo>(
                    x,
                    (m + k) as u32,
                ) == at::<FileInfo>(v, (start + k) as u32) by {
                    if k < end - 1 - start {
                        assert(at::<FileInfo>(w, (m + k) as u32) == at::<FileInfo>(
                            v,
                            (start + k) as u32,
                        ));
                    } else {
                        assert((m + k) as u32 == count::<FileInfo>(w) as u32);
                    }
                }
            }
        }
    } else {
        law_grows_reflexive(v);
    }
}

proof fn lemma_added_info(v: ArchiveView, file: NewFile, group: u32)
    requires
        v.wf(),
    ensures
        add_file(v, file, group) matches Some(w) ==> {
            &&& infos_kept(v, w)
            &&& w.resource.file_package == v.resource.file_package
            &&& count::<FileInfo>(w) == count::<FileInfo>(v) + 1
            &&& w.find_file_path(file.filepath.spec_path()) == Some(
                at::<FileInfo>(w, count::<FileInfo>(v) as u32).path,
            )
        },
{
    reveal(add_file);
    if let Some(w) = add_file(v, file, group) {
        let e = count::<FileEntity>(v) as u32;
        let i = count::<FileInfo>(v) as u32;
        let path = FilePath {
            path_and_entity: file.filepath.path_and_entity.with_data(e),
            ..file.filepath
        };
        assert(path.spec_path() == file.filepath.spec_path());
        let x1 = FileEntity { package_or_group: group, info: i };
        law_stored(v, 0, x1);
        law_insert_file_path(pushed(v, x1), path, path.spec_path());
    }
}

proof fn lemma_all_infos(v: ArchiveView, files: Seq<NewFile>, n: int, group: u32)
    requires
        v.wf(),
        0 <= n <= files.len(),
    ensures
        add_all(v, files, n, group) matches Some(w) ==> {
            &&& grows(v, w)
            &&& infos_kept(v, w)
            &&& w.resource.file_package == v.resource.file_package
            &&& count::<FileInfo>(w) == count::<FileInfo>(v) + n
            &&& forall|j: int|
                0 <= j < n ==> w.find_file_path((#[trigger] files[j]).filepath.spec_path()) == Some(
                    at::<FileInfo>(w, (count::<FileInfo>(v) + j) as u32).path,
                )
        },
    decreases n,
{
    if n > 0 {
        lemma_all_infos(v, files, n - 1, group);
        if let Some(w) = add_all(v, files, n - 1, group) {
            lemma_added_info(w, files[n - 1], group);
            lemma_add_file_grows(w, files[n - 1], group);
            if let Some(x) = add_file(w, files[n - 1], group) {
                law_grows_transitive(v, w, x);
                law_stored(x, 0, at::<FileInfo>(x, 0));
                assert forall|k: u32| #[trigger] holds::<FileInfo>(v, k) implies at::<FileInfo>(x, k)
                    == at::<FileInfo>(v, k) by {
                    assert(holds::<FileInfo>(w, k));
                }
                assert forall|j: int| 0 <= j < n implies x.find_file_path(
                    (#[trigger] files[j]).filepath.spec_path(),
                ) == Some(at::<FileInfo>(x, (count::<FileInfo>(v) + j) as u32).path) by {
                    if j < n - 1 {
                        assert(w.find_file_path(files[j].filepath.spec_path()) is Some);
                        assert(holds::<FileInfo>(w, (count::<FileInfo>(v) + j) as u32));
                    }
                }
            }
        }
    } else {
        law_grows_reflexive(v);
    }
}

/// A package to which files were added has all its infos, in their order, and behind them one for each of
/// the files, in the order of the files, which has the path of the file. All other packages, and all infos
/// that were there, are as they were.
pub proof fn law_extended_package(v: ArchiveView, p: u32, files: Seq<NewFile>)
    requires
        v.wf(),
        holds::<FilePackage>(v, p),
    ensures
        extend_package(v, p, files) matches Some(w) ==> {
            let old = at::<FilePackage>(v, p);
            let new = at::<FilePackage>(w, p);
            &&& infos_kept(v, w)
            &&& new.info_start + new.info_count == count::<FileInfo>(w)
            &&& new.info_count == old.info_count + files.len()
            &&& new == (FilePackage { info_start: new.info_start, info_count: new.info_count, ..old })
            &&& forall|k: int|
                0 <= k < old.info_count ==> #[trigger] at::<FileInfo>(w, (new.info_start + k) as u32)
                    == at::<FileInfo>(v, (old.info_start + k) as u32)
            &&& forall|j: int|
                0 <= j < files.len() ==> w.find_file_path((#[trigger] files[j]).filepath.spec_path())
                    == Some(
                    at::<FileInfo>(w, (new.info_start + old.info_count + j) as u32).path,
                )
            &&& forall|q: u32| #[trigger]
                holds::<FilePackage>(v, q) && q != p ==> at::<FilePackage>(w, q) == at::<FilePackage>(v, q)
        },
{
    if let Some(w) = extend_package(v, p, files) {
        let old = at::<FilePackage>(v, p);
        let end = old.info_start + old.info_count;
        let group = old.spec_data_group();
        lemma_relocated(v, old.info_start, end);
        let x = relocate_run(v, old.info_start, end)->0;
        lemma_all_infos(x, files, files.len() as int, group);
        let y = add_all(x, files, files.len() as int, group)->0;
        law_stored(v, 0, at::<FileInfo>(v, 0));
        law_stored(y, 0, at::<FileInfo>(y, 0));
        let m = count::<FileInfo>(v);
        let new = FilePackage {
            info_start: m as u32,
            info_count: (old.info_count + files.len()) as u32,
            ..at::<FilePackage>(y, p)
        };
        law_stored(y, p, new);
        assert(w == with(y, p, new));
        assert(w.resource.file_info == y.resource.file_info);
        assert forall|k: u32| #[trigger] holds::<FileInfo>(v, k) implies at::<FileInfo>(w, k) == at::<
            FileInfo,
        >(v, k) by {
            assert(holds::<FileInfo>(x, k));
        }
        assert forall|k: int| 0 <= k < old.info_count implies #[trigger] at::<FileInfo>(
            w,
            (new.info_start + k) as u32,
        ) == at::<FileInfo>(v, (old.info_start + k) as u32) by {
            assert(at::<FileInfo>(x, (m + k) as u32) == at::<FileInfo>(v, (old.info_start + k) as u32));
            assert(holds::<FileInfo>(x, (m + k) as u32));
        }
        assert forall|j: int| 0 <= j < files.len() implies w.find_file_path(
            (#[trigger] files[j]).filepath.spec_path(),
        ) == Some(at::<FileInfo>(w, (new.info_start + old.info_count + j) as u32).path) by {
            assert(y.find_file_path(files[j].filepath.spec_path()) == Some(
                at::<FileInfo>(y, (count::<FileInfo>(x) + j) as u32).path,
            ));
            assert((count::<FileInfo>(x) + j) as u32 == (new.info_start + old.info_count + j) as u32);
        }
    }
}

/// Does package `p` have an info `k`, counted from its first one?
pub open spec fn has_info(v: ArchiveView, p: u32, k: int) -> bool {
    let package = at::<FilePackage>(v, p);
    &&& holds::<FilePackage>(v, p)
    &&& 0 <= k < package.info_count
    &&& package.info_start + k < count::<FileInfo>(v)
}

/// Info `k` of package `p`, counted from its first one.
pub open spec fn info_of(v: ArchiveView, p: u32, k: int) -> FileInfo {
    at::<FileInfo>(v, (at::<FilePackage>(v, p).info_start + k) as u32)
}

/// Is the path with this hash the path of info `k` of package `p`, counted from its first one?
pub open spec fn is_info_of(w: ArchiveView, p: u32, k: int, path: Hash40) -> bool {
    has_info(w, p, k) && w.find_file_path(path) == Some(info_of(w, p, k).path)
}

/// Is the path with this hash the path of one of the infos of package `p`?
pub open spec fn is_in_package(w: ArchiveView, p: u32, path: Hash40) -> bool {
    exists|k: int| #[trigger] is_info_of(w, p, k, path)
}

/// Packages have the infos that they had, in their order, and possibly others behind them.
pub open spec fn runs_grow(v: ArchiveView, w: ArchiveView) -> bool {
    &&& infos_kept(v, w)
    &&& forall|p: u32| #[trigger]
        holds::<FilePackage>(v, p) ==> at::<FilePackage>(v, p).info_count <= at::<FilePackage>(
            w,
            p,
        ).info_count && at::<FilePackage>(w, p) == (FilePackage {
            info_start: at::<FilePackage>(w, p).info_start,
            info_count: at::<FilePackage>(w, p).info_count,
            ..at::<FilePackage>(v, p)
        })
    &&& forall|p: u32, k: int| #[trigger]
        has_info(v, p, k) ==> has_info(w, p, k) && info_of(w, p, k) == info_of(v, p, k)
}

proof fn lemma_runs_transitive(u: ArchiveView, v: ArchiveView, w: ArchiveView)
    requires
        runs_grow(u, v),
        runs_grow(v, w),
    ensures
        runs_grow(u, w),
{
    assert forall|k: u32| #[trigger] holds::<FileInfo>(u, k) implies at::<FileInfo>(w, k) == at::<
        FileInfo,
    >(u, k) by {
        assert(holds::<FileInfo>(v, k));
    }
    assert forall|p: u32| #[trigger] holds::<FilePackage>(u, p) implies at::<FilePackage>(u, p).info_count
        <= at::<FilePackage>(w, p).info_count && at::<FilePackage>(w, p) == (FilePackage {
        info_start: at::<FilePackage>(w, p).info_start,
        info_count: at::<FilePackage>(w, p).info_count,
        ..at::<FilePackage>(u, p)
    }) by {
        assert(holds::<FilePackage>(v, p));
    }
    assert forall|p: u32, k: int| #[trigger] has_info(u, p, k) implies has_info(w, p, k) && info_of(w, p, k)
        == info_of(u, p, k) by {
        assert(has_info(v, p, k));
    }
}

proof fn lemma_extended_runs(v: ArchiveView, p: u32, files: Seq<NewFile>)
    requires
        v.wf(),
        holds::<FilePackage>(v, p),
    ensures
        extend_package(v, p, files) matches Some(w) ==> runs_grow(v, w),
{
    law_extended_package(v, p, files);
    law_stored(v, 0, at::<FileInfo>(v, 0));
    if let Some(w) = extend_package(v, p, files) {
        assert forall|q: u32, k: int| #[trigger] has_info(v, q, k) implies has_info(w, q, k) && info_of(
            w,
            q,
            k,
        ) == info_of(v, q, k) by {
            if q != p {
                assert(holds::<FileInfo>(v, (at::<FilePackage>(v, q).info_start + k) as u32));
            } else {
                assert(at::<FileInfo>(w, (at::<FilePackage>(w, p).info_start + k) as u32) == at::<FileInfo>(
                    v,
                    (at::<FilePackage>(v, p).info_start + k) as u32,
                ));
            }
        }
    }
}

/// What was in a package stays in it.
proof fn lemma_stays_in_package(v: ArchiveView, w: ArchiveView, p: u32, k: int, path: Hash40)
    requires
        runs_grow(v, w),
        grows(v, w),
        holds::<FilePackage>(v, p),
        is_info_of(v, p, k, path),
    ensures
        is_info_of(w, p, k, path),
{
    assert(v.find_file_path(path) is Some);
}

/// Every file of the group is in package `p` and leads to data of its size.
pub open spec fn all_there(w: ArchiveView, p: u32, files: Seq<NewFile>, prefs: LocalePreferences) -> bool {
    forall|j: int|
        0 <= j < files.len() ==> is_in_package(w, p, (#[trigger] files[j]).filepath.spec_path()) && (count::<
            FileEntity,
        >(w) <= 0x100_0000 ==> leads_to(w, files[j].filepath.spec_path(), files[j].size, prefs))
}

/// Is the path of info `k` of package `p` that of a file which waited for a package that is `p`?
pub open spec fn is_awaited(v: ArchiveView, w: ArchiveView, groups: Groups, p: u32, k: int) -> bool {
    exists|h: Hash40, file: NewFile|
        v.find_file_package(h) == Some(p) && #[trigger] waits(groups, h, file) && is_info_of(
            w,
            p,
            k,
            file.filepath.spec_path(),
        )
}

#[verifier::spinoff_prover]
proof fn lemma_extended_packages(v: ArchiveView, groups: Groups, n: int, prefs: LocalePreferences)
    requires
        v.wf(),
        0 <= n <= groups.len(),
    ensures
        extend_packages(v, groups, n) matches Some(w) ==> {
            &&& grows(v, w)
            &&& runs_grow(v, w)
            &&& w.search == v.search
            &&& forall|g: int|
                0 <= g < n && v.find_file_package((#[trigger] groups[g]).0) is Some ==> all_there(
                    w,
                    v.find_file_package(groups[g].0)->0,
                    groups[g].1,
                    prefs,
                )
            &&& forall|p: u32, k: int|
                holds::<FilePackage>(v, p) && at::<FilePackage>(v, p).info_count <= k < at::<FilePackage>(
                    w,
                    p,
                ).info_count ==> #[trigger] is_awaited(v, w, groups, p, k)
        },
    decreases n,
{
    if n > 0 {
        lemma_extended_packages(v, groups, n - 1, prefs);
        if let Some(w) = extend_packages(v, groups, n - 1) {
            let (h, files) = groups[n - 1];
            assert(w.find_file_package(h) == v.find_file_package(h));
            if let Some(p) = w.find_file_package(h) {
                lemma_extend_package_grows(w, p, files);
                lemma_extended_runs(w, p, files);
                law_extended_package(w, p, files);
                law_extended_routes(w, p, files, prefs);
                lemma_extend_package_routes(w, p, files, prefs);
                lemma_extend_package_search(w, p, files);
                if let Some(x) = extend_package(w, p, files) {
                    law_grows_transitive(v, w, x);
                    lemma_runs_transitive(v, w, x);
                    assert(all_there(x, p, files, prefs)) by {
                        assert forall|j: int| 0 <= j < files.len() implies is_in_package(
                            x,
                            p,
                            (#[trigger] files[j]).filepath.spec_path(),
                        ) by {
                            let c = at::<FilePackage>(w, p).info_count + j;
                            assert(is_info_of(x, p, c, files[j].filepath.spec_path()));
                        }
                    }
                    assert forall|g: int|
                        0 <= g < n && v.find_file_package((#[trigger] groups[g]).0) is Some implies all_there(
                        x,
                        v.find_file_package(groups[g].0)->0,
                        groups[g].1,
                        prefs,
                    ) by {
                        if g < n - 1 {
                            lemma_all_stay(w, x, v.find_file_package(groups[g].0)->0, groups[g].1, prefs);
                        }
                    }
                    assert forall|q: u32, k: int|
                        holds::<FilePackage>(v, q) && at::<FilePackage>(v, q).info_count <= k < at::<
                            FilePackage,
                        >(x, q).info_count implies #[trigger] is_awaited(v, x, groups, q, k) by {
                        assert(holds::<FilePackage>(w, q));
                        if k < at::<FilePackage>(w, q).info_count {
                            assert(is_awaited(v, w, groups, q, k));
                            let (i, file) = choose|i: Hash40, file: NewFile|
                                v.find_file_package(i) == Some(q) && #[trigger] waits(groups, i, file)
                                    && is_info_of(w, q, k, file.filepath.spec_path());
                            lemma_stays_in_package(w, x, q, k, file.filepath.spec_path());
                            assert(waits(groups, i, file));
                        } else {
                            assert(q == p);
                            let j = k - at::<FilePackage>(w, p).info_count;
                            assert(groups[n - 1].1[j] == files[j]);
                            assert(waits(groups, h, files[j]));
                            assert(is_info_of(x, p, k, files[j].filepath.spec_path()));
                        }
                    }
                }
            }
        }
    } else {
        law_grows_reflexive(v);
    }
}

proof fn lemma_extend_package_search(v: ArchiveView, p: u32, files: Seq<NewFile>)
    ensures
        extend_package(v, p, files) matches Some(w) ==> w.search == v.search,
{
    let package = at::<FilePackage>(v, p);
    let end = package.info_start + package.info_count;
    lemma_relocate_run_search(v, package.info_start, end);
    if let Some(w) = relocate_run(v, package.info_start, end) {
        lemma_add_all_search(w, files, files.len() as int, package.spec_data_group());
    }
}

proof fn lemma_relocate_run_search(v: ArchiveView, start: u32, end: int)
    ensures
        relocate_run(v, start, end) matches Some(w) ==> w.search == v.search,
    decreases end - start,
{
    if end > start {
        lemma_relocate_run_search(v, start, end - 1);
        reveal(relocate);
    }
}

proof fn lemma_add_all_search(v: ArchiveView, files: Seq<NewFile>, n: int, group: u32)
    ensures
        add_all(v, files, n, group) matches Some(w) ==> w.search == v.search,
    decreases n,
{
    if n > 0 {
        lemma_add_all_search(v, files, n - 1, group);
        reveal(add_file);
    }
}

proof fn lemma_all_stay(v: ArchiveView, w: ArchiveView, p: u32, files: Seq<NewFile>, prefs: LocalePreferences)
    requires
        grows(v, w),
        runs_grow(v, w),
        same_routes(v, w, prefs),
        holds::<FilePackage>(v, p),
        all_there(v, p, files, prefs),
    ensures
        all_there(w, p, files, prefs),
{
    assert forall|j: int| 0 <= j < files.len() implies is_in_package(
        w,
        p,
        (#[trigger] files[j]).filepath.spec_path(),
    ) && (count::<FileEntity>(w) <= 0x100_0000 ==> leads_to(
        w,
        files[j].filepath.spec_path(),
        files[j].size,
        prefs,
    )) by {
        let path = files[j].filepath.spec_path();
        assert(is_in_package(v, p, path));
        let k = choose|k: int| #[trigger] is_info_of(v, p, k, path);
        lemma_stays_in_package(v, w, p, k, path);
        if count::<FileEntity>(w) <= 0x100_0000 {
            assert(leads_to(v, path, files[j].size, prefs));
            assert(v.find_file_path(path) is Some);
        }
    }
}

/// Each of the files that are added, and not only the last one for its package, is found in the archive
/// afterwards, is one of the files of its package, and leads to data of its size. The last needs entities
/// to be told apart in 24 bits.
pub proof fn law_each_added(
    v: ArchiveView,
    files: Seq<(NewFile, Option<Hash40>)>,
    j: int,
    prefs: LocalePreferences,
)
    requires
        v.wf(),
        0 <= j < files.len(),
        v.find_file_path(files[j].0.filepath.spec_path()) is None,
        files[j].1 is Some,
        v.find_file_package(files[j].1->0) is Some,
        v.find_search_folder(spec_trim(files[j].0.filepath.spec_parent(), encode_utf8("/"@))) is Some,
    ensures
        add_files(v, files) matches Some(w) ==> {
            let path = files[j].0.filepath.spec_path();
            &&& w.find_file_path(path) is Some
            &&& is_in_package(w, v.find_file_package(files[j].1->0)->0, path)
            &&& count::<FileEntity>(w) <= 0x100_0000 ==> leads_to(w, path, files[j].0.size, prefs)
        },
{
    let s = Registering { archive: v, groups: Seq::empty() };
    lemma_registered(v, files, files.len() as int);
    if let Some(t) = register_all(s, files, files.len() as int) {
        let (file, package) = files[j];
        let h = package->0;
        assert(is_new(v, files[j]));
        assert(waits(t.groups, h, file));
        let (g, k) = choose|g: int, k: int|
            0 <= g < t.groups.len() && 0 <= k < t.groups[g].1.len() && t.groups[g].0 == h
                && #[trigger] t.groups[g].1[k] == file;
        lemma_extended_packages(t.archive, t.groups, t.groups.len() as int, prefs);
        if let Some(w) = add_files(v, files) {
            assert(t.archive.find_file_package(h) == v.find_file_package(h));
            assert(all_there(w, v.find_file_package(h)->0, t.groups[g].1, prefs));
            assert(is_in_package(w, v.find_file_package(h)->0, file.filepath.spec_path()));
        }
    }
}

/// Adding files leaves each package the infos that it had, in their order. Behind them stand infos of files
/// that were to be added to this package and that the archive did not have, and no others.
pub proof fn law_only_new_added(
    v: ArchiveView,
    files: Seq<(NewFile, Option<Hash40>)>,
    p: u32,
    k: int,
)
    requires
        v.wf(),
        holds::<FilePackage>(v, p),
        0 <= k,
    ensures
        add_files(v, files) matches Some(w) ==> {
            let old = at::<FilePackage>(v, p);
            let new = at::<FilePackage>(w, p);
            &&& old.info_count <= new.info_count
            &&& new == (FilePackage { info_start: new.info_start, info_count: new.info_count, ..old })
            &&& has_info(v, p, k) ==> has_info(w, p, k) && info_of(w, p, k) == info_of(v, p, k)
            &&& old.info_count <= k < new.info_count ==> exists|j: int|
                0 <= j < files.len() && (#[trigger] files[j]).1 is Some && v.find_file_package(
                    files[j].1->0,
                ) == Some(p) && v.find_file_path(files[j].0.filepath.spec_path()) is None && is_info_of(
                    w,
                    p,
                    k,
                    files[j].0.filepath.spec_path(),
                )
        },
{
    let s = Registering { archive: v, groups: Seq::empty() };
    lemma_registered(v, files, files.len() as int);
    if let Some(t) = register_all(s, files, files.len() as int) {
        let prefs = arbitrary::<LocalePreferences>();
        lemma_extended_packages(t.archive, t.groups, t.groups.len() as int, prefs);
        if let Some(w) = add_files(v, files) {
            let old = at::<FilePackage>(v, p);
            let new = at::<FilePackage>(w, p);
            assert(holds::<FilePackage>(t.archive, p));
            assert(at::<FilePackage>(t.archive, p) == old);
            assert(has_info(v, p, k) == has_info(t.archive, p, k));
            if old.info_count <= k < new.info_count {
                assert(is_awaited(t.archive, w, t.groups, p, k));
                let (h, file) = choose|h: Hash40, file: NewFile|
                    t.archive.find_file_package(h) == Some(p) && #[trigger] waits(t.groups, h, file)
                        && is_info_of(w, p, k, file.filepath.spec_path());
                let j = files.index_of((file, Some(h)));
                assert(files[j] == (file, Some(h)));
            }
        }
    }
}

/// The info that an entity is loaded by, after the infos from `start` up to `end` were copied to the end of
/// the table: the copy of the info that it was loaded by, if that is one of these and its path leads to the
/// entity.
pub open spec fn moved_entity(v: ArchiveView, start: u32, end: int, e: u32) -> FileEntity {
    let old = at::<FileEntity>(v, e);
    if start <= old.info < end && at::<FilePath>(v, at::<FileInfo>(v, old.info).path).spec_entity() == e {
        FileEntity { info: (count::<FileInfo>(v) + (old.info - start)) as u32, ..old }
    } else {
        old
    }
}

proof fn lemma_relocated_entities(v: ArchiveView, start: u32, end: int)
    requires
        v.wf(),
        start <= end <= count::<FileInfo>(v),
    ensures
        relocate_run(v, start, end) matches Some(w) ==> {
            &&& w.resource.file_path == v.resource.file_path
            &&& w.resource.file_desc == v.resource.file_desc
            &&& w.resource.file_data == v.resource.file_data
            &&& count::<FileEntity>(w) == count::<FileEntity>(v)
            &&& forall|e: u32| #[trigger]
                holds::<FileEntity>(v, e) ==> at::<FileEntity>(w, e) == moved_entity(v, start, end, e)
        },
    decreases end - start,
{
    if end > start {
        lemma_relocated_entities(v, start, end - 1);
        lemma_relocated(v, start, end - 1);
        if let Some(w) = relocate_run(v, start, end - 1) {
            let i = (end - 1) as u32;
            reveal(relocate);
            law_stored(v, 0, at::<FileInfo>(v, 0));
            if let Some(x) = relocate(w, i) {
                assert(holds::<FileInfo>(v, i));
                let info = at::<FileInfo>(w, i);
                assert(info == at::<FileInfo>(v, i));
                let a = at::<FilePath>(w, info.path).spec_entity();
                law_stored(w, 0, info);
                let y = pushed(w, info);
                let n = count::<FileInfo>(w) as u32;
                law_stored(y, a, FileEntity { info: n, ..at::<FileEntity>(w, a) });
                assert forall|e: u32| #[trigger] holds::<FileEntity>(v, e) implies at::<FileEntity>(x, e)
                    == moved_entity(v, start, end, e) by {
                    if e == a {
                        assert(at::<FileEntity>(w, e) == moved_entity(v, start, end - 1, e));
                    } else {
                        assert(at::<FileEntity>(x, e) == at::<FileEntity>(w, e));
                    }
                }
            }
        }
    }
}

proof fn lemma_added_records(v: ArchiveView, file: NewFile, group: u32)
    requires
        v.wf(),
    ensures
        add_file(v, file, group) matches Some(w) ==> {
            let i = count::<FileInfo>(v) as u32;
            let b = at::<FileInfo>(w, i);
            &&& is_added_file(w, i, file, group)
            &&& count::<FileEntity>(w) == count::<FileEntity>(v) + 1
            &&& entries_kept(v, w)
        },
{
    lemma_added_info(v, file, group);
    reveal(add_file);
    if let Some(w) = add_file(v, file, group) {
        let e = count::<FileEntity>(v) as u32;
        let i = count::<FileInfo>(v) as u32;
        let path = FilePath {
            path_and_entity: file.filepath.path_and_entity.with_data(e),
            ..file.filepath
        };
        assert(path.spec_path() == file.filepath.spec_path());
        assert(path.spec_entity() == e % 0x100_0000);
        law_load_method(FileLoadMethod::Owned(0));
        assert forall|k: u32| #[trigger] holds::<FilePath>(v, k) implies at::<FilePath>(w, k) == at::<
            FilePath,
        >(v, k) by {}
    }
}

/// Info `i` is that of a file that was added: it has the file's path, an entity that it is loaded by, and a
/// descriptor of its own in group `group` with data of the file's size. Its buffer is aligned like that of
/// a graphics archive.
pub open spec fn is_added_file(w: ArchiveView, i: u32, file: NewFile, group: u32) -> bool {
    let info = at::<FileInfo>(w, i);
    let path = at::<FilePath>(w, info.path);
    let entity = at::<FileEntity>(w, info.entity);
    let desc = at::<FileDescriptor>(w, info.desc);
    let data = at::<FileData>(w, desc.file_data);
    &&& holds::<FileInfo>(w, i)
    &&& holds::<FilePath>(w, info.path)
    &&& holds::<FileEntity>(w, info.entity)
    &&& holds::<FileDescriptor>(w, info.desc)
    &&& holds::<FileData>(w, desc.file_data)
    &&& info.flags.bits == 0x1000
    &&& entity.info == i
    &&& entity.package_or_group == group
    &&& path.spec_path() == file.filepath.spec_path()
    &&& path.parent == file.filepath.parent
    &&& path.file_name == file.filepath.file_name
    &&& path.ext_and_version == file.filepath.ext_and_version
    &&& path.spec_entity() == info.entity % 0x100_0000
    &&& desc.group == group
    &&& FileLoadMethod::of_raw(desc.load_method) == FileLoadMethod::Owned(0)
    &&& data.decompressed_size == file.size
    &&& data.compressed_size == 0
    &&& data.in_group_offset == 0
    &&& data.flags.bits == 0
}

/// Infos, entities, paths, descriptors and data of `v` are in `w` as they were.
pub open spec fn entries_kept(v: ArchiveView, w: ArchiveView) -> bool {
    &&& count::<FileInfo>(v) <= count::<FileInfo>(w)
    &&& count::<FileEntity>(v) <= count::<FileEntity>(w)
    &&& count::<FilePath>(v) <= count::<FilePath>(w)
    &&& count::<FileDescriptor>(v) <= count::<FileDescriptor>(w)
    &&& count::<FileData>(v) <= count::<FileData>(w)
    &&& forall|k: u32| #[trigger]
        holds::<FileInfo>(v, k) ==> at::<FileInfo>(w, k) == at::<FileInfo>(v, k)
    &&& forall|k: u32| #[trigger]
        holds::<FileEntity>(v, k) ==> at::<FileEntity>(w, k) == at::<FileEntity>(v, k)
    &&& forall|k: u32| #[trigger]
        holds::<FilePath>(v, k) ==> at::<FilePath>(w, k) == at::<FilePath>(v, k)
    &&& forall|k: u32| #[trigger]
        holds::<FileDescriptor>(v, k) ==> at::<FileDescriptor>(w, k) == at::<FileDescriptor>(v, k)
    &&& forall|k: u32| #[trigger]
        holds::<FileData>(v, k) ==> at::<FileData>(w, k) == at::<FileData>(v, k)
}

proof fn lemma_added_file_kept(v: ArchiveView, w: ArchiveView, i: u32, file: NewFile, group: u32)
    requires
        entries_kept(v, w),
        is_added_file(v, i, file, group),
    ensures
        is_added_file(w, i, file, group),
{
    let info = at::<FileInfo>(v, i);
    assert(holds::<FilePath>(v, info.path));
    assert(holds::<FileEntity>(v, info.entity));
    assert(holds::<FileDescriptor>(v, info.desc));
    assert(holds::<FileData>(v, at::<FileDescriptor>(v, info.desc).file_data));
}

proof fn lemma_all_records(v: ArchiveView, files: Seq<NewFile>, n: int, group: u32)
    requires
        v.wf(),
        0 <= n <= files.len(),
    ensures
        add_all(v, files, n, group) matches Some(w) ==> {
            &&& entries_kept(v, w)
            &&& forall|j: int|
                0 <= j < n ==> is_added_file(
                    w,
                    (count::<FileInfo>(v) + j) as u32,
                    #[trigger] files[j],
                    group,
                )
        },
    decreases n,
{
    if n > 0 {
        lemma_all_records(v, files, n - 1, group);
        lemma_all_infos(v, files, n - 1, group);
        if let Some(w) = add_all(v, files, n - 1, group) {
            lemma_added_records(w, files[n - 1], group);
            if let Some(x) = add_file(w, files[n - 1], group) {
                assert(entries_kept(v, x)) by {
                    assert forall|k: u32| #[trigger] holds::<FileInfo>(v, k) implies at::<FileInfo>(x, k)
                        == at::<FileInfo>(v, k) by {
                        assert(holds::<FileInfo>(w, k));
                    }
                    assert forall|k: u32| #[trigger] holds::<FileEntity>(v, k) implies at::<FileEntity>(x, k)
                        == at::<FileEntity>(v, k) by {
                        assert(holds::<FileEntity>(w, k));
                    }
                    assert forall|k: u32| #[trigger] holds::<FilePath>(v, k) implies at::<FilePath>(x, k)
                        == at::<FilePath>(v, k) by {
                        assert(holds::<FilePath>(w, k));
                    }
                    assert forall|k: u32| #[trigger] holds::<FileDescriptor>(v, k) implies at::<
                        FileDescriptor,
                    >(x, k) == at::<FileDescriptor>(v, k) by {
                        assert(holds::<FileDescriptor>(w, k));
                    }
                    assert forall|k: u32| #[trigger] holds::<FileData>(v, k) implies at::<FileData>(x, k)
                        == at::<FileData>(v, k) by {
                        assert(holds::<FileData>(w, k));
                    }
                }
                assert forall|j: int| 0 <= j < n implies is_added_file(
                    x,
                    (count::<FileInfo>(v) + j) as u32,
                    #[trigger] files[j],
                    group,
                ) by {
                    if j < n - 1 {
                        lemma_added_file_kept(w, x, (count::<FileInfo>(v) + j) as u32, files[j], group);
                    }
                }
            }
        }
    }
}

/// Adding files to a package, record by record. Every new file has a path, an entity, an info, a descriptor
/// and data of its own, in the group of the package. An entity that was loaded by an info of the package,
/// whose path leads to the entity, is loaded by the copy of that info. Every other entity, and all paths,
/// descriptors and data that were there, are as they were.
pub proof fn law_extended_records(v: ArchiveView, p: u32, files: Seq<NewFile>, e: u32)
    requires
        v.wf(),
        holds::<FilePackage>(v, p),
    ensures
        extend_package(v, p, files) matches Some(w) ==> {
            let old = at::<FilePackage>(v, p);
            let new = at::<FilePackage>(w, p);
            let i = at::<FileEntity>(v, e).info;
            let path = at::<FilePath>(v, at::<FileInfo>(v, i).path);
            let inside = old.info_start <= i < old.info_start + old.info_count && path.spec_entity() == e;
            &&& forall|j: int|
                0 <= j < files.len() ==> is_added_file(
                    w,
                    (new.info_start + old.info_count + j) as u32,
                    #[trigger] files[j],
                    old.spec_data_group(),
                )
            &&& holds::<FileEntity>(v, e) && inside ==> {
                &&& at::<FileEntity>(w, e).info - new.info_start == i - old.info_start
                &&& at::<FileEntity>(w, e).package_or_group == at::<FileEntity>(v, e).package_or_group
                &&& at::<FileInfo>(w, at::<FileEntity>(w, e).info) == at::<FileInfo>(v, i)
            }
            &&& holds::<FileEntity>(v, e) && !inside ==> at::<FileEntity>(w, e) == at::<FileEntity>(v, e)
            &&& holds::<FilePath>(v, e) ==> at::<FilePath>(w, e) == at::<FilePath>(v, e)
            &&& holds::<FileDescriptor>(v, e) ==> at::<FileDescriptor>(w, e) == at::<FileDescriptor>(v, e)
            &&& holds::<FileData>(v, e) ==> at::<FileData>(w, e) == at::<FileData>(v, e)
        },
{
    law_extended_package(v, p, files);
    if let Some(w) = extend_package(v, p, files) {
        let old = at::<FilePackage>(v, p);
        let end = old.info_start + old.info_count;
        let group = old.spec_data_group();
        lemma_relocated(v, old.info_start, end);
        lemma_relocated_entities(v, old.info_start, end);
        let x = relocate_run(v, old.info_start, end)->0;
        lemma_all_records(x, files, files.len() as int, group);
        lemma_all_infos(x, files, files.len() as int, group);
        let y = add_all(x, files, files.len() as int, group)->0;
        law_stored(y, 0, at::<FileInfo>(y, 0));
        let new = at::<FilePackage>(w, p);
        assert(new.info_start == count::<FileInfo>(v));
        assert forall|j: int| 0 <= j < files.len() implies is_added_file(
            w,
            (new.info_start + old.info_count + j) as u32,
            #[trigger] files[j],
            group,
        ) by {
            assert(is_added_file(y, (count::<FileInfo>(x) + j) as u32, files[j], group));
        }
        if holds::<FileEntity>(v, e) {
            assert(holds::<FileEntity>(x, e));
            let i = at::<FileEntity>(v, e).info;
            if old.info_start <= i < end {
                let k = i - old.info_start;
                assert(at::<FileInfo>(w, (new.info_start + k) as u32) == at::<FileInfo>(
                    v,
                    (old.info_start + k) as u32,
                ));
            }
        }
        if holds::<FilePath>(v, e) {
            assert(holds::<FilePath>(x, e));
        }
        if holds::<FileDescriptor>(v, e) {
            assert(holds::<FileDescriptor>(x, e));
        }
        if holds::<FileData>(v, e) {
            assert(holds::<FileData>(x, e));
        }
    }
}

/// The file is found in the search tree, as a child of its folder.
pub open spec fn is_searchable(w: ArchiveView, file: NewFile) -> bool {
    let parent = spec_trim(file.filepath.spec_parent(), encode_utf8("/"@));
    let path = file.filepath.spec_path();
    let q = w.find_search_path(path)->0;
    let found = at::<SearchPath>(w, q);
    &&& w.find_search_path(path) is Some
    &&& found.spec_path() == path
    &&& found.spec_parent() == parent
    &&& found.extension.spec_hash40() == file.filepath.spec_extension()
    &&& !found.spec_is_folder()
    &&& w.find_search_folder(parent) is Some
    &&& count::<SearchPathLink>(w) <= 0xFF_FFFF ==> is_child(w, w.find_search_folder(parent)->0, q)
}

proof fn lemma_searchable_kept(v: ArchiveView, w: ArchiveView, file: NewFile)
    requires
        search_kept(v, w),
        is_searchable(v, file),
        count::<SearchPathLink>(v) <= count::<SearchPathLink>(w),
    ensures
        is_searchable(w, file),
{
    let parent = spec_trim(file.filepath.spec_parent(), encode_utf8("/"@));
    let path = file.filepath.spec_path();
    let q = v.find_search_path(path)->0;
    assert(v.find_search_path(path) is Some);
    assert(v.find_search_folder(parent) is Some);
    assert(holds::<SearchPath>(v, q));
}

proof fn lemma_registered_searchable(v: ArchiveView, files: Seq<(NewFile, Option<Hash40>)>, n: int)
    requires
        v.wf(),
        0 <= n <= files.len(),
    ensures
        register_all(Registering { archive: v, groups: Seq::empty() }, files, n) matches Some(t) ==> {
            &&& search_kept(v, t.archive)
            &&& forall|j: int|
                0 <= j < n && is_new(v, #[trigger] files[j]) ==> is_searchable(t.archive, files[j].0)
        },
    decreases n,
{
    let s = Registering { archive: v, groups: Seq::empty() };
    lemma_search_reflexive(v);
    if n > 0 {
        lemma_registered_searchable(v, files, n - 1);
        lemma_registered(v, files, n - 1);
        if let Some(t) = register_all(s, files, n - 1) {
            let (file, package) = files[n - 1];
            law_registered_search(t, file, package);
            lemma_new_search_path(file.filepath);
            if let Some(u) = register(t, file, package) {
                lemma_search_transitive(v, t.archive, u.archive);
                assert(count::<SearchPathLink>(t.archive) <= count::<SearchPathLink>(u.archive)
                    && (is_new(v, files[n - 1]) ==> count::<SearchPathLink>(t.archive) + 1 == count::<
                    SearchPathLink,
                >(u.archive))) by {
                    reveal(register);
                    reveal(append_child);
                }
                assert forall|j: int| 0 <= j < n && is_new(v, #[trigger] files[j]) implies is_searchable(
                    u.archive,
                    files[j].0,
                ) by {
                    if j < n - 1 {
                        lemma_searchable_kept(t.archive, u.archive, files[j].0);
                    } else {
                        let parent = spec_trim(file.filepath.spec_parent(), encode_utf8("/"@));
                        assert(t.archive.find_search_folder(parent) is Some);
                    }
                }
            }
        }
    }
}

/// Each of the files that are added is found in the search tree afterwards, as a file that is a child of its
/// folder. The last needs links to be told apart in 24 bits. All that was found in the tree still is.
pub proof fn law_each_searchable(v: ArchiveView, files: Seq<(NewFile, Option<Hash40>)>, j: int)
    requires
        v.wf(),
        0 <= j < files.len(),
        v.find_file_path(files[j].0.filepath.spec_path()) is None,
        files[j].1 is Some,
        v.find_search_folder(spec_trim(files[j].0.filepath.spec_parent(), encode_utf8("/"@))) is Some,
    ensures
        add_files(v, files) matches Some(w) ==> is_searchable(w, files[j].0),
{
    let s = Registering { archive: v, groups: Seq::empty() };
    lemma_registered_searchable(v, files, files.len() as int);
    lemma_registered(v, files, files.len() as int);
    if let Some(t) = register_all(s, files, files.len() as int) {
        assert(is_new(v, files[j]));
        lemma_extended_packages(t.archive, t.groups, t.groups.len() as int, arbitrary());
        if let Some(w) = add_files(v, files) {
            assert(w.search == t.archive.search);
            lemma_same_search(t.archive, w, files[j].0);
        }
    }
}

proof fn lemma_same_search(v: ArchiveView, w: ArchiveView, file: NewFile)
    requires
        w.search == v.search,
        is_searchable(v, file),
    ensures
        is_searchable(w, file),
{
    let parent = spec_trim(file.filepath.spec_parent(), encode_utf8("/"@));
    let q = v.find_search_path(file.filepath.spec_path())->0;
    assert(w.find_search_path(file.filepath.spec_path()) == v.find_search_path(file.filepath.spec_path()));
    assert(w.find_search_folder(parent) == v.find_search_folder(parent));
    if count::<SearchPathLink>(w) <= 0xFF_FFFF {
        lemma_children_kept(v, w);
        assert(is_child(v, v.find_search_folder(parent)->0, q));
    }
}

/// In a patched archive, every new file whose package and folder are there, and which the archive does not
/// have once files were replaced, is found by its path, is one of the files of its package, and leads to
/// data of its size.
pub proof fn law_patched_adds(
    v: ArchiveView,
    prefs: LocalePreferences,
    files: Seq<(Hash40, u32)>,
    new_files: Seq<(NewFile, Option<Hash40>)>,
    j: int,
)
    requires
        v.wf(),
        0 <= j < new_files.len(),
        new_files[j].1 is Some,
        replaced(v, prefs, files) matches Some(t) ==> {
            &&& t.find_file_path(new_files[j].0.filepath.spec_path()) is None
            &&& t.find_file_package(new_files[j].1->0) is Some
            &&& t.find_search_folder(
                spec_trim(new_files[j].0.filepath.spec_parent(), encode_utf8("/"@)),
            ) is Some
        },
    ensures
        patched(v, prefs, files, new_files) matches Some(w) ==> {
            let path = new_files[j].0.filepath.spec_path();
            &&& w.find_file_path(path) is Some
            &&& is_in_package(w, w.find_file_package(new_files[j].1->0)->0, path)
            &&& count::<FileEntity>(w) <= 0x100_0000 ==> leads_to(w, path, new_files[j].0.size, prefs)
            &&& is_searchable(w, new_files[j].0)
        },
{
    law_patched_grows(v, prefs, files, Seq::empty());
    if let Some(t) = replaced(v, prefs, files) {
        lemma_nothing_added(t);
        assert(patched(v, prefs, files, Seq::empty()) == Some(t));
        law_add_files_grows(t, new_files);
        law_each_added(t, new_files, j, prefs);
        law_each_searchable(t, new_files, j);
    }
}

proof fn lemma_nothing_added(v: ArchiveView)
    ensures
        add_files(v, Seq::empty()) == Some(v),
{
    let s = Registering { archive: v, groups: Seq::empty() };
    assert(register_all(s, Seq::empty(), 0) == Some(s));
    assert(extend_packages(v, Seq::empty(), 0) == Some(v));
}

/// Adding files leaves the infos that were there.
pub(crate) proof fn lemma_added_keep_infos(v: ArchiveView, files: Seq<(NewFile, Option<Hash40>)>)
    requires
        v.wf(),
    ensures
        add_files(v, files) matches Some(w) ==> infos_kept(v, w),
{
    let s = Registering { archive: v, groups: Seq::empty() };
    lemma_registered(v, files, files.len() as int);
    if let Some(t) = register_all(s, files, files.len() as int) {
        lemma_extended_packages(t.archive, t.groups, t.groups.len() as int, arbitrary());
        if let Some(w) = add_files(v, files) {
            assert forall|k: u32| #[trigger] holds::<FileInfo>(v, k) implies at::<FileInfo>(w, k) == at::<
                FileInfo,
            >(v, k) by {
                assert(holds::<FileInfo>(t.archive, k));
            }
        }
    }
}

} // verus!
