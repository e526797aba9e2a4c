//! When the steps of patching are owed to succeed: whenever the records that they lead to are there, and the
//! tables have room for what they add.

use crate::access::{at, count, holds, law_stored, pushed};
use crate::add_files::{
    add_all, add_file, add_files, append_child, extend_package, extend_packages, last_child, register,
    register_all, relocate, relocate_run, Groups, NewFile, Registering,
};
use crate::archive::ArchiveView;
use crate::data::{
    FileData, FileDescriptor, FileEntity, FileGroup, FileInfo, FilePackage, FilePackageChild, FilePath,
    SearchFolder, SearchPath, SearchPathLink,
};
use crate::hash40::{hash40_str, spec_trim, spec_with, Hash40};
use crate::hash_interner::SlabView;
use crate::locale::LocalePreferences;
use crate::packages::{
    adopt, below, copied_group, copied_package, copy_children, copy_contents, copy_info, copy_infos,
    costume_folder, costume_info, costume_infos, costume_search_path, duplicate_child, duplicate_package,
    file_in_folder, first_name, renamed_bank, replace_child, replace_children, retarget, retarget_child,
    retarget_children, retarget_info, retarget_infos, sound_bank,
};
use crate::patch::patched;
use crate::reshare::{
    reshare_groups, reshare_info, reshare_package, reshare_packages, reshare_run, Resharing,
};
use crate::search_laws::{is_nth_child, walk};
use crate::share::{all_known, collected, package_infos, runs_fit};
use crate::unshare::{
    follow_all, follow_entity, redirect, redirect_all, replace, replace_all, resized, spare, unshare,
    Patching,
};
use vstd::prelude::*;
use vstd::utf8::encode_utf8;

verus! {

/// An info of a group is moved to the copy of its path unless it was moved before, as long as its path and
/// its descriptor in force are there. A copy that has to be made needs room, and a hash that is not in use.
pub proof fn law_reshare_info_succeeds(s: Resharing, i: u32, prefs: LocalePreferences)
    requires
        s.archive.wf(),
        holds::<FileInfo>(s.archive, i),
    ensures
        ({
            let v = s.archive;
            let info = at::<FileInfo>(v, i);
            let path = at::<FilePath>(v, info.path);
            let hash = spec_with(path.spec_path(), encode_utf8(".reshared"@));
            reshare_info(s, i, prefs) is Some <==> {
                &&& holds::<FilePath>(v, info.path)
                &&& info.flags.bits & 0x8000_0000 == 0
                &&& info.spec_desc_index(prefs) < count::<FileDescriptor>(v)
                &&& s.renamed.contains_key(info.path) || v.resource.file_path_lookup.get(hash.0) is None
                    && count::<FilePath>(v) < u32::MAX
            }
        }),
{
    reveal(reshare_info);
    let info = at::<FileInfo>(s.archive, i);
    crate::load_laws::lemma_shared_flags(info.flags);
    crate::reshare_laws::lemma_reshared_path(at::<FilePath>(s.archive, info.path));
    law_stored(s.archive, i, info);
}

/// The infos of a run are dealt with one after the other, and all are if each of them is.
pub proof fn law_reshare_run_succeeds(s: Resharing, start: u32, end: int, prefs: LocalePreferences)
    requires
        start < end <= u32::MAX,
    ensures
        reshare_run(s, start, start as int, prefs) == Some(s),
        reshare_run(s, start, end, prefs) is Some <==> {
            &&& reshare_run(s, start, end - 1, prefs) is Some
            &&& reshare_info(reshare_run(s, start, end - 1, prefs)->0, (end - 1) as u32, prefs) is Some
        },
{
}

/// A package without a group, or whose group is not there or was dealt with, needs nothing. The infos of any
/// other group are dealt with, and lie within the table.
pub proof fn law_reshare_package_succeeds(s: Resharing, p: u32, prefs: LocalePreferences)
    ensures
        ({
            let v = s.archive;
            let package = at::<FilePackage>(v, p);
            let g = at::<FileGroup>(v, package.spec_data_group()).redirection;
            let group = at::<FileGroup>(v, g);
            let end = group.child_start + group.child_count;
            let grouped = package.flags.bits & 0x1400_0000 == 0x400_0000;
            let todo = grouped && holds::<FileGroup>(v, g) && !s.managed.contains(g);
            &&& !grouped ==> reshare_package(s, p, prefs) == Some(s)
            &&& grouped && holds::<FileGroup>(v, package.spec_data_group()) && !todo ==> reshare_package(
                s,
                p,
                prefs,
            ) == Some(s)
            &&& todo && holds::<FileGroup>(v, package.spec_data_group()) ==> (reshare_package(s, p, prefs)
                is Some <==> 0 < end <= count::<FileInfo>(v) && reshare_run(
                Resharing { managed: s.managed.insert(g), ..s },
                group.child_start,
                end,
                prefs,
            ) is Some)
        }),
{
    reveal(reshare_package);
}

/// The last child of a folder is found if there is one within as many steps as asked for.
proof fn lemma_last_child_found(v: ArchiveView, c: u32, fuel: nat, m: nat, l: u32)
    requires
        walk(v, c, m) == Some(l),
        at::<SearchPath>(v, l).spec_is_end(),
        m <= fuel,
    ensures
        last_child(v, c, fuel) == Some(l),
    decreases m,
{
    assert(walk(v, c, 0) == Some(c));
    if m > 0 {
        lemma_walk_first(v, c, m);
        let d = v.follow(at::<SearchPath>(v, c).next_index())->0;
        lemma_last_child_found(v, d, (fuel - 1) as nat, (m - 1) as nat, l);
    }
}

/// Going on at least once goes on from the first.
proof fn lemma_walk_first(v: ArchiveView, c: u32, m: nat)
    requires
        m > 0,
        walk(v, c, m) is Some,
    ensures
        !at::<SearchPath>(v, c).spec_is_end(),
        v.follow(at::<SearchPath>(v, c).next_index()) matches Some(d) && walk(v, d, (m - 1) as nat) == walk(
            v,
            c,
            m,
        ),
    decreases m,
{
    assert(walk(v, c, 0) == Some(c));
    if m == 1 {
        assert(walk(v, c, 1) == v.follow(at::<SearchPath>(v, c).next_index()));
        let d = walk(v, c, 1)->0;
        assert(walk(v, d, 0) == Some(d));
    } else {
        lemma_walk_first(v, c, (m - 1) as nat);
        let d = v.follow(at::<SearchPath>(v, c).next_index())->0;
        assert(walk(v, d, (m - 2) as nat) == walk(v, c, (m - 1) as nat));
    }
}

/// A link is put behind the last child of a folder if the list of its children has an end.
pub proof fn law_append_child_succeeds(v: ArchiveView, f: u32, link: u32, l: u32, m: nat)
    requires
        is_nth_child(v, f, l, m),
        at::<SearchPath>(v, l).spec_is_end(),
        m <= count::<SearchPath>(v),
    ensures
        append_child(v, f, link) is Some,
{
    reveal(append_child);
    let c = v.follow(at::<SearchFolder>(v, f).first_child_index)->0;
    lemma_last_child_found(v, c, count::<SearchPath>(v), m, l);
}

/// Files that the archive has and files without a package are passed over. Any other file gets a search path
/// if its hash is not in use and there is room, as long as the list of its folder's children has an end.
pub proof fn law_register_succeeds(s: Registering, file: NewFile, package: Option<Hash40>, l: u32, m: nat)
    requires
        s.archive.wf(),
    ensures
        ({
            let v = s.archive;
            let path = file.filepath.spec_path();
            let parent = spec_trim(file.filepath.spec_parent(), encode_utf8("/"@));
            let passed = v.find_file_path(path) is Some || package is None;
            let room = v.search.search_path_lookup.get(path.0) is None && count::<SearchPath>(v) < u32::MAX
                && count::<SearchPathLink>(v) < u32::MAX;
            &&& passed ==> register(s, file, package) == Some(s)
            &&& !passed && register(s, file, package) is Some ==> room
            &&& !passed && room && v.find_search_folder(parent) is None ==> register(s, file, package) is Some
                && register(s, file, package)->0.groups == s.groups
            &&& !passed && room && v.find_search_folder(parent) is Some && is_nth_child(
                v,
                v.find_search_folder(parent)->0,
                l,
                m,
            ) && at::<SearchPath>(v, l).spec_is_end() && m <= count::<SearchPath>(v) ==> register(
                s,
                file,
                package,
            ) is Some
        }),
{
    reveal(register);
    let v = s.archive;
    let path = SearchPath::of_file_path(file.filepath);
    let parent = spec_trim(file.filepath.spec_parent(), encode_utf8("/"@));
    crate::add_laws::lemma_new_search_path(file.filepath);
    if v.can_insert_search_path(path) {
        let w = v.insert_search_path(path);
        crate::search_laws::lemma_search_path_inserted(v, path);
        if let Some(f) = v.find_search_folder(parent) {
            if is_nth_child(v, f, l, m) && at::<SearchPath>(v, l).spec_is_end() {
                let c = v.follow(at::<SearchFolder>(v, f).first_child_index)->0;
                assert forall|k: u32| #[trigger] v.follow(k) is Some implies w.follow(k) == v.follow(k) by {}
                crate::search_laws::lemma_walk_kept(v, w, c, m);
                crate::search_laws::lemma_walk_holds(v, c, m);
                assert(is_nth_child(w, f, l, m));
                if m <= count::<SearchPath>(v) {
                    law_append_child_succeeds(w, f, count::<SearchPathLink>(v) as u32, l, m);
                }
            }
        }
    }
}

/// An info is copied to the end of the table if its path, the entity of that and the info that loads it are
/// there, and if there is room.
pub proof fn law_relocate_succeeds(v: ArchiveView, i: u32)
    ensures
        ({
            let info = at::<FileInfo>(v, i);
            let e = at::<FilePath>(v, info.path).spec_entity();
            relocate(v, i) is Some <==> {
                &&& holds::<FileInfo>(v, i)
                &&& holds::<FilePath>(v, info.path)
                &&& holds::<FileEntity>(v, e)
                &&& at::<FileEntity>(v, e).info <= count::<FileInfo>(v)
                &&& count::<FileInfo>(v) < u32::MAX
            }
        }),
{
    reveal(relocate);
}

/// A file is added if its path is not in use and all tables have room for one more record.
pub proof fn law_add_file_succeeds(v: ArchiveView, file: NewFile, group: u32)
    ensures
        add_file(v, file, group) is Some <==> {
            &&& v.resource.file_path_lookup.get(file.filepath.spec_path().0) is None
            &&& count::<FilePath>(v) < u32::MAX
            &&& count::<FileEntity>(v) < u32::MAX
            &&& count::<FileData>(v) < u32::MAX
            &&& count::<FileDescriptor>(v) < u32::MAX
            &&& count::<FileInfo>(v) < u32::MAX
        },
{
    reveal(add_file);
    let e = count::<FileEntity>(v) as u32;
    let path = FilePath {
        path_and_entity: file.filepath.path_and_entity.with_data(e),
        ..file.filepath
    };
    assert(path.spec_path() == file.filepath.spec_path());
}

/// An info follows an entity if it and its descriptor in force are there.
pub proof fn law_follow_succeeds(v: ArchiveView, i: u32, entity: u32, prefs: LocalePreferences)
    requires
        v.wf(),
    ensures
        follow_entity(v, i, entity, prefs) is Some <==> holds::<FileInfo>(v, i) && at::<FileInfo>(
            v,
            i,
        ).spec_desc_index(prefs) < count::<FileDescriptor>(v),
{
    reveal(follow_entity);
    let info = at::<FileInfo>(v, i);
    crate::load_laws::lemma_shared_flags(info.flags);
    law_stored(v, i, info);
}

/// The infos of a path that share are given data of their own if the package of the first one, its group, the
/// info and its path are there, there is room, and the others are there with their descriptors. A localized or
/// regional file is left alone.
pub proof fn law_unshare_succeeds(v: ArchiveView, infos: Seq<(u32, u32)>, size: u32, prefs: LocalePreferences)
    requires
        v.wf(),
        infos.len() > 0,
        holds::<FileInfo>(v, infos[0].1),
    ensures
        ({
            let (p, first) = infos[0];
            let info = at::<FileInfo>(v, first);
            &&& info.flags.bits & 0x3_0000 != 0 ==> unshare(v, infos, size, prefs) == Some(v)
            &&& info.flags.bits & 0x3_0000 == 0 && holds::<FilePackage>(v, p) && holds::<FileGroup>(
                v,
                at::<FilePackage>(v, p).spec_data_group(),
            ) && holds::<FilePath>(v, info.path) && count::<FileData>(v) < u32::MAX && count::<FileEntity>(v)
                < u32::MAX && count::<FileDescriptor>(v) < u32::MAX && (forall|j: int|
                0 < j < infos.len() ==> (#[trigger] infos[j]).1 != first && holds::<FileInfo>(v, infos[j].1)
                    && at::<FileInfo>(v, infos[j].1).spec_desc_index(prefs) < count::<FileDescriptor>(v))
                ==> unshare(v, infos, size, prefs) is Some
        }),
{
    let (p, first) = infos[0];
    if crate::unshare::can_own(v, infos) {
        let u = crate::unshare::owned(v, infos, size);
        crate::unshare_laws::lemma_owned_records(v, infos, size);
        let e = count::<FileEntity>(v) as u32;
        let rest = infos.skip(1);
        if forall|j: int|
            0 < j < infos.len() ==> (#[trigger] infos[j]).1 != first && holds::<FileInfo>(v, infos[j].1)
                && at::<FileInfo>(v, infos[j].1).spec_desc_index(prefs) < count::<FileDescriptor>(v) {
            assert forall|j: int| 0 <= j < rest.len() implies holds::<FileInfo>(u, (#[trigger] rest[j]).1)
                && at::<FileInfo>(u, rest[j].1).spec_desc_index(prefs) < count::<FileDescriptor>(u) by {
                assert(rest[j] == infos[j + 1]);
                assert(infos[j + 1].1 != first);
                assert(holds::<FileInfo>(v, infos[j + 1].1));
            }
            lemma_follow_all_succeeds(u, rest, rest.len() as int, e, prefs);
        }
    }
}

proof fn lemma_follow_all_succeeds(
    v: ArchiveView,
    infos: Seq<(u32, u32)>,
    n: int,
    entity: u32,
    prefs: LocalePreferences,
)
    requires
        v.wf(),
        0 <= n <= infos.len(),
        forall|j: int|
            0 <= j < infos.len() ==> holds::<FileInfo>(v, (#[trigger] infos[j]).1) && at::<FileInfo>(
                v,
                infos[j].1,
            ).spec_desc_index(prefs) < count::<FileDescriptor>(v),
    ensures
        follow_all(v, infos, n, entity, prefs) is Some,
    decreases n,
{
    if n > 0 {
        lemma_follow_all_succeeds(v, infos, n - 1, entity, prefs);
        crate::unshare_laws::lemma_followed(v, infos, n - 1, entity, prefs);
        let w = follow_all(v, infos, n - 1, entity, prefs)->0;
        let i = infos[n - 1].1;
        assert(holds::<FileInfo>(v, i));
        crate::unshare_laws::lemma_follower_desc(v, i, entity, prefs);
        law_follow_succeeds(w, i, entity, prefs);
    }
}

/// A file gets another size if its info, its descriptor in force and its data are there.
pub proof fn law_resize_succeeds(v: ArchiveView, i: u32, size: u32, prefs: LocalePreferences)
    ensures
        ({
            let d = at::<FileInfo>(v, i).spec_desc_index(prefs);
            resized(v, i, size, prefs) is Some <==> holds::<FileInfo>(v, i) && d < count::<FileDescriptor>(v)
                && holds::<FileData>(v, at::<FileDescriptor>(v, d as u32).file_data)
        }),
{
    reveal(resized);
}

/// A path is replaced if the archive does not have it, if it is localized or regional, if its infos can be
/// given data of their own, or if those that share with it can be pointed at a copy and its size be changed.
pub proof fn law_replace_succeeds(s: Patching, path: Hash40, size: u32, prefs: LocalePreferences)
    ensures
        s.archive.find_file_path(path) is None ==> replace(s, path, size, prefs) is Some,
        s.archive.find_file_path(path) matches Some(p) ==> {
            let v = s.archive;
            let record = at::<FilePath>(v, p);
            let infos = s.shares.infos_of(record.spec_path().0);
            let i = at::<FileEntity>(v, record.spec_entity()).info;
            let there = holds::<FileEntity>(v, record.spec_entity()) && holds::<FileInfo>(v, i);
            &&& infos.len() > 0 ==> (replace(s, path, size, prefs) is Some <==> unshare(
                v,
                infos,
                size,
                prefs,
            ) is Some)
            &&& infos.len() == 0 && there && at::<FileInfo>(v, i).flags.bits & 0x3_0000 != 0 ==> replace(
                s,
                path,
                size,
                prefs,
            ) is Some
            &&& infos.len() == 0 && there && at::<FileInfo>(v, i).flags.bits & 0x3_0000 == 0
                && !s.shares.reverse.contains_key(i) ==> (replace(s, path, size, prefs) is Some <==> resized(
                v,
                i,
                size,
                prefs,
            ) is Some)
            &&& infos.len() == 0 && there && at::<FileInfo>(v, i).flags.bits & 0x3_0000 == 0
                && s.shares.reverse.contains_key(i) ==> (replace(s, path, size, prefs) is Some <==> {
                &&& spare(v, i, s.shares.reverse[i], prefs) is Some
                &&& resized(spare(v, i, s.shares.reverse[i], prefs)->0, i, size, prefs) is Some
            })
        },
{
}

/// An info that shares with an entity is moved to another one if its path and its descriptor in force are
/// there. One that does not is left alone.
pub proof fn law_redirect_succeeds(v: ArchiveView, i: u32, from: u32, entity: u32, prefs: LocalePreferences)
    requires
        v.wf(),
    ensures
        ({
            let info = at::<FileInfo>(v, i);
            let there = holds::<FileInfo>(v, i) && holds::<FileEntity>(v, info.entity);
            &&& there && info.entity != from ==> redirect(v, i, from, entity, prefs) == Some(v)
            &&& there && info.entity == from ==> (redirect(v, i, from, entity, prefs) is Some
                <==> holds::<FilePath>(v, info.path) && info.spec_desc_index(prefs) < count::<
                FileDescriptor,
            >(v))
        }),
{
    reveal(redirect);
    let info = at::<FileInfo>(v, i);
    law_stored(v, i, FileInfo { entity, ..info });
}

/// An info is copied if its entity, its descriptor and its data are there, the load method is a known one, and
/// there is room.
pub proof fn law_copy_info_succeeds(v: ArchiveView, i: u32, group: u32)
    ensures
        ({
            let info = at::<FileInfo>(v, i);
            let desc = at::<FileDescriptor>(v, info.desc);
            let kind = desc.load_method / 0x100_0000;
            copy_info(v, i, group) is Some <==> {
                &&& holds::<FileInfo>(v, i)
                &&& holds::<FileEntity>(v, info.entity)
                &&& holds::<FileDescriptor>(v, info.desc)
                &&& holds::<FileData>(v, desc.file_data)
                &&& kind == 0 || kind == 1 || kind == 3 || kind == 5 || kind == 9 || kind == 16
                &&& count::<FileData>(v) < u32::MAX
                &&& count::<FileDescriptor>(v) < u32::MAX
                &&& count::<FileInfo>(v) < u32::MAX
            }
        }),
{
    reveal(copy_info);
}

/// The group of a copied package can be told if the group of the package is there, unless the package links
/// to one that is not there or that clashes with it.
pub proof fn law_copied_group_succeeds(
    v: ArchiveView,
    source: FilePackage,
    clashes: spec_fn(FilePackage) -> bool,
)
    ensures
        ({
            let r = at::<FileGroup>(v, source.spec_data_group()).redirection;
            let links = source.flags.bits & 0x400_0000 != 0 && source.flags.bits & 0x1000_0000 != 0;
            copied_group(v, source, clashes) is Some <==> holds::<FileGroup>(v, source.spec_data_group()) && (
            links ==> holds::<FilePackage>(v, r) && !clashes(at::<FilePackage>(v, r)))
        }),
{
}

/// A child of a folder is retargeted if both it and its namesake in the other folder are paths of the archive,
/// and the entity of the namesake is there.
pub proof fn law_retarget_succeeds(v: ArchiveView, c: u32, new_parent: Hash40, i: u32, parent: Hash40, prefs: LocalePreferences)
    ensures
        ({
            let child = at::<SearchPath>(v, c);
            let t = v.find_file_path(below(new_parent, child.spec_name()));
            retarget_child(v, c, new_parent) is Some <==> t is Some && v.find_file_path(child.spec_path())
                is Some && holds::<FileEntity>(v, at::<FilePath>(v, t->0).spec_entity())
        }),
        ({
            let info = at::<FileInfo>(v, i);
            let path = at::<FilePath>(v, info.path);
            let shared = at::<FileEntity>(v, info.entity).info;
            let there = holds::<FileInfo>(v, i) && holds::<FilePath>(v, info.path);
            &&& there && path.spec_parent() != parent ==> retarget_info(v, i, parent, prefs) == Some(v)
            &&& there && path.spec_parent() == parent ==> (retarget_info(v, i, parent, prefs) is Some <==> {
                &&& holds::<FileEntity>(v, path.spec_entity())
                &&& holds::<FileEntity>(v, info.entity)
                &&& holds::<FileInfo>(v, shared)
                &&& holds::<FileDescriptor>(v, at::<FileInfo>(v, shared).desc)
                &&& info.spec_desc_index(prefs) < count::<FileDescriptor>(v)
            })
        }),
{
    reveal(retarget_child);
    reveal(retarget_info);
}

/// Giving the files of groups paths of their own succeeds exactly if it does for each package in turn.
pub proof fn law_reshare_groups_succeeds(s: Resharing, n: int, prefs: LocalePreferences)
    requires
        0 < n <= u32::MAX,
    ensures
        reshare_packages(s, 0, prefs) == Some(s),
        reshare_packages(s, n, prefs) is Some <==> {
            &&& reshare_packages(s, n - 1, prefs) is Some
            &&& reshare_package(reshare_packages(s, n - 1, prefs)->0, (n - 1) as u32, prefs) is Some
        },
        reshare_groups(s.archive, prefs) is Some <==> reshare_packages(
            Resharing { archive: s.archive, renamed: Map::empty(), managed: Set::empty() },
            count::<FilePackage>(s.archive) as int,
            prefs,
        ) is Some,
{
}

/// Files are replaced exactly if each of them is in turn. Whether there are others does not matter.
pub proof fn law_replace_all_succeeds(s: Patching, files: Seq<(Hash40, u32)>, n: int, prefs: LocalePreferences)
    requires
        0 < n <= files.len(),
    ensures
        replace_all(s, files, 0, prefs) == Some(s),
        replace_all(s, files, n, prefs) is Some <==> {
            &&& replace_all(s, files, n - 1, prefs) is Some
            &&& replace(
                replace_all(s, files, n - 1, prefs)->0,
                files[n - 1].0,
                files[n - 1].1,
                prefs,
            ) is Some
        },
{
}

/// Those that share with a file are pointed at its copy exactly if each of them is in turn, and if the file
/// can be copied: it is loaded by its own entity, its descriptor and its data are there, it stands for no
/// earlier data and is neither localized nor regional, and there is room.
pub proof fn law_spare_succeeds(v: ArchiveView, i: u32, dependents: Seq<u32>, n: int, prefs: LocalePreferences)
    requires
        0 < n <= dependents.len(),
    ensures
        ({
            let info = at::<FileInfo>(v, i);
            let u = crate::unshare::copied(v, i);
            let e = count::<FileEntity>(v) as u32;
            &&& spare(v, i, dependents, prefs) is Some <==> {
                &&& holds::<FileInfo>(v, i)
                &&& holds::<FileEntity>(v, info.entity)
                &&& at::<FileEntity>(v, info.entity).info == i
                &&& holds::<FileDescriptor>(v, info.desc)
                &&& holds::<FileData>(v, at::<FileDescriptor>(v, info.desc).file_data)
                &&& info.flags.bits & 0x3_0000 == 0
                &&& info.flags.bits & 0x8000_0000 == 0
                &&& count::<FileData>(v) < u32::MAX
                &&& count::<FileDescriptor>(v) < u32::MAX
                &&& count::<FileInfo>(v) < u32::MAX
                &&& count::<FileEntity>(v) < u32::MAX
                &&& redirect_all(u, dependents, dependents.len() as int, info.entity, e, prefs) is Some
            }
            &&& redirect_all(u, dependents, 0, info.entity, e, prefs) == Some(u)
            &&& redirect_all(u, dependents, n, info.entity, e, prefs) is Some <==> {
                let w = redirect_all(u, dependents, n - 1, info.entity, e, prefs);
                w is Some && redirect(w->0, dependents[n - 1], info.entity, e, prefs) is Some
            }
        }),
{
}

/// New files get search paths exactly if each of them does in turn.
pub proof fn law_register_all_succeeds(s: Registering, files: Seq<(NewFile, Option<Hash40>)>, n: int)
    requires
        0 < n <= files.len(),
    ensures
        register_all(s, files, 0) == Some(s),
        register_all(s, files, n) is Some <==> {
            &&& register_all(s, files, n - 1) is Some
            &&& register(register_all(s, files, n - 1)->0, files[n - 1].0, files[n - 1].1) is Some
        },
{
}

/// A package is extended if its infos and its group are there, if all of its infos can be moved and if all of
/// the files can be added, each in turn.
pub proof fn law_extend_package_succeeds(v: ArchiveView, p: u32, files: Seq<NewFile>, start: u32, end: int, n: int)
    requires
        start < end <= u32::MAX,
        0 < n <= files.len(),
    ensures
        ({
            let package = at::<FilePackage>(v, p);
            let group = package.spec_data_group();
            let stop = package.info_start + package.info_count;
            let moved = relocate_run(v, package.info_start, stop);
            extend_package(v, p, files) is Some <==> {
                &&& 0 < stop <= count::<FileInfo>(v)
                &&& holds::<FileGroup>(v, group)
                &&& package.info_count + files.len() <= u32::MAX
                &&& moved is Some
                &&& add_all(moved->0, files, files.len() as int, group) is Some
            }
        }),
        relocate_run(v, start, start as int) == Some(v),
        relocate_run(v, start, end) is Some <==> relocate_run(v, start, end - 1) is Some && relocate(
            relocate_run(v, start, end - 1)->0,
            (end - 1) as u32,
        ) is Some,
        add_all(v, files, 0, p) == Some(v),
        add_all(v, files, n, p) is Some <==> add_all(v, files, n - 1, p) is Some && add_file(
            add_all(v, files, n - 1, p)->0,
            files[n - 1],
            p,
        ) is Some,
{
}

/// Files are added exactly if they all get search paths and if each package that the archive has is extended
/// in turn.
pub proof fn law_add_files_succeeds(
    v: ArchiveView,
    files: Seq<(NewFile, Option<Hash40>)>,
    groups: Groups,
    n: int,
)
    requires
        0 < n <= groups.len(),
    ensures
        ({
            let s = register_all(
                Registering { archive: v, groups: Seq::empty() },
                files,
                files.len() as int,
            );
            add_files(v, files) is Some <==> s is Some && extend_packages(
                s->0.archive,
                s->0.groups,
                s->0.groups.len() as int,
            ) is Some
        }),
        extend_packages(v, groups, 0) == Some(v),
        ({
            let w = extend_packages(v, groups, n - 1);
            &&& extend_packages(v, groups, n) is Some ==> w is Some
            &&& w is Some && w->0.find_file_package(groups[n - 1].0) is None ==> extend_packages(v, groups, n)
                == w
            &&& w is Some && w->0.find_file_package(groups[n - 1].0) is Some ==> (extend_packages(
                v,
                groups,
                n,
            ) is Some <==> extend_package(
                w->0,
                w->0.find_file_package(groups[n - 1].0)->0,
                groups[n - 1].1,
            ) is Some)
        }),
{
}

/// The archive is patched exactly if the sharing among the infos of all packages can be told, if the files of
/// groups get paths of their own, if all files are replaced, and if all new files are added.
pub proof fn law_patched_succeeds(
    v: ArchiveView,
    prefs: LocalePreferences,
    files: Seq<(Hash40, u32)>,
    new_files: Seq<(NewFile, Option<Hash40>)>,
)
    ensures
        ({
            let n = count::<FilePackage>(v) as int;
            let u = reshare_groups(v, prefs);
            let t = replace_all(
                Patching { archive: u->0, shares: collected(v, package_infos(v, n)) },
                files,
                files.len() as int,
                prefs,
            );
            patched(v, prefs, files, new_files) is Some <==> {
                &&& runs_fit(v, n)
                &&& all_known(v, package_infos(v, n))
                &&& u is Some
                &&& t is Some
                &&& add_files(t->0.archive, new_files) is Some
            }
        }),
{
}

/// The files and the children of a package are copied exactly if each of them is in turn.
pub proof fn law_copy_contents_succeeds(v: ArchiveView, start: u32, end: int, group: u32)
    requires
        start < end <= u32::MAX,
    ensures
        copy_infos(v, start, start as int, group) == Some(v),
        copy_infos(v, start, end, group) is Some <==> copy_infos(v, start, end - 1, group) is Some && copy_info(
            copy_infos(v, start, end - 1, group)->0,
            (end - 1) as u32,
            group,
        ) is Some,
        copy_children(v, start, start as int) == Some(v),
        copy_children(v, start, end) is Some <==> {
            let w = copy_children(v, start, end - 1);
            &&& w is Some
            &&& holds::<FilePackageChild>(w->0, (end - 1) as u32)
            &&& count::<FilePackageChild>(w->0) < u32::MAX
        },
{
}

/// A file gets a path for the new costume if its path and the folder of that are there. A file in the folder
/// of the old costume needs the folder of the new one or a place for it, and any other one has to be a sound
/// bank whose name is known.
pub proof fn law_costume_path_succeeds(
    v: ArchiveView,
    file: FilePath,
    old_costume: Hash40,
    costume: Hash40,
    names: SlabView,
)
    ensures
        ({
            let q = v.find_search_path(spec_trim(file.spec_parent(), encode_utf8("/"@)));
            let folder = at::<SearchPath>(v, q->0);
            let made = costume_folder(v, folder, costume);
            let r = costume_search_path(v, file, old_costume, costume, names);
            &&& q is None ==> r is None
            &&& q is Some && folder.spec_name() == old_costume ==> (r is Some <==> {
                &&& made is Some
                &&& ({
                    let (w, f) = made->0;
                    file_in_folder(w, f, file) is Some
                })
            })
            &&& q is Some && folder.spec_name() != old_costume && (folder.spec_path() == hash40_str(
                "sound/bank/fighter"@,
            ) || folder.spec_path() == hash40_str("sound/bank/fighter_voice"@)) ==> r == sound_bank(
                v,
                folder.spec_path(),
                file,
                old_costume,
                costume,
                names,
            )
            &&& q is Some && folder.spec_name() != old_costume && r is Some ==> folder.spec_path()
                == hash40_str("sound/bank/fighter"@) || folder.spec_path() == hash40_str(
                "sound/bank/fighter_voice"@,
            )
        }),
{
    reveal(costume_search_path);
}

/// A folder or a file that is there needs nothing, and one that is not needs a hash that is not in use, room,
/// and a parent whose list of children has an end.
pub proof fn law_costume_folder_succeeds(
    v: ArchiveView,
    old_folder: SearchPath,
    costume: Hash40,
    f: u32,
    file: FilePath,
)
    requires
        v.wf(),
    ensures
        ({
            let path = below(old_folder.spec_parent(), costume);
            v.find_search_folder(path) is Some ==> costume_folder(v, old_folder, costume) == Some(
                (v, v.find_search_folder(path)->0),
            )
        }),
        ({
            let path = below(at::<SearchFolder>(v, f).spec_path(), file.spec_file_name());
            &&& v.find_search_path(path) is Some ==> file_in_folder(v, f, file) == Some(
                (v, at::<SearchPath>(v, v.find_search_path(path)->0)),
            )
            &&& v.find_search_path(path) is None && v.search.search_path_lookup.get(path.0) is None && count::<
                SearchPath,
            >(v) < u32::MAX && count::<SearchPathLink>(v) < u32::MAX && at::<SearchFolder>(v, f).first_child_index
                == u32::MAX ==> file_in_folder(v, f, file) is Some
        }),
{
    reveal(costume_folder);
    reveal(file_in_folder);
    reveal(adopt);
    let folder = at::<SearchFolder>(v, f).spec_path();
    let name = file.spec_file_name();
    crate::copy_laws::lemma_below_wf(folder, name);
    crate::data::law_new_search_path(below(folder, name), folder, name, file.spec_extension());
}

/// A file of a copied package gets its path for the new costume if there is a search path for it, and if the
/// path is there or there is room for it.
pub proof fn law_costume_info_succeeds(
    v: ArchiveView,
    i: u32,
    start: u32,
    end: int,
    old_costume: Hash40,
    costume: Hash40,
    names: SlabView,
)
    requires
        start < end <= u32::MAX,
    ensures
        ({
            let info = at::<FileInfo>(v, i);
            let file = at::<FilePath>(v, info.path);
            let found = costume_search_path(v, file, old_costume, costume, names);
            let (w, s) = found->0;
            costume_info(v, i, old_costume, costume, names) is Some <==> {
                &&& holds::<FileInfo>(v, i)
                &&& holds::<FilePath>(v, info.path)
                &&& found is Some
                &&& !s.spec_is_folder()
                &&& w.find_file_path(s.spec_path()) is Some || w.resource.file_path_lookup.get(
                    s.spec_path().0,
                ) is None && count::<FilePath>(w) < u32::MAX
            }
        }),
        costume_infos(v, start, start as int, old_costume, costume, names) == Some(v),
        costume_infos(v, start, end, old_costume, costume, names) is Some <==> {
            let w = costume_infos(v, start, end - 1, old_costume, costume, names);
            w is Some && costume_info(w->0, (end - 1) as u32, old_costume, costume, names) is Some
        },
{
    reveal(costume_info);
    let file = at::<FilePath>(v, at::<FileInfo>(v, i).path);
    if let Some((w, s)) = costume_search_path(v, file, old_costume, costume, names) {
        crate::data::law_hash_with_data(s.spec_path(), file.spec_entity());
        assert(crate::data::HashWithData::of(s.spec_path(), file.spec_entity()).spec_hash40()
            == s.spec_path());
    }
}

/// The package of a costume is copied exactly if it is there with its group, its files and its children, if
/// there is room for another group, if its contents can be copied, its children replaced and its files given
/// paths, and if the path of the new package is not in use.
pub proof fn law_duplicate_succeeds(v: ArchiveView, path: Hash40, costume: Hash40, names: SlabView)
    ensures
        v.find_file_package(path) is None ==> duplicate_package(v, path, costume, names) is None,
        v.find_file_package(path) matches Some(p) ==> {
            let source = at::<FilePackage>(v, p);
            let parent = source.spec_parent();
            let g = count::<FileGroup>(v) as u32;
            let group = copied_group(v, source, |q: FilePackage| q.spec_name() == source.spec_name());
            let bare = copied_package(source, below(parent, costume), costume, parent, g);
            let contents = copy_contents(pushed(v, group->0), bare, g, source);
            let (w, copy) = contents->0;
            let x = replace_children(
                w,
                copy.child_start,
                copy.child_start + copy.child_count,
                copy.spec_path(),
                source.spec_name(),
                costume,
                names,
            );
            let y = costume_infos(
                x->0,
                copy.info_start,
                copy.info_start + copy.info_count,
                source.spec_name(),
                costume,
                names,
            );
            duplicate_package(v, path, costume, names) is Some <==> {
                &&& group is Some
                &&& 0 < source.info_start + source.info_count <= count::<FileInfo>(v)
                &&& 0 < source.child_start + source.child_count <= count::<FilePackageChild>(v)
                &&& count::<FileGroup>(v) < u32::MAX
                &&& contents is Some
                &&& x is Some
                &&& y is Some
                &&& y->0.resource.file_package_lookup.get(copy.spec_path().0) is None
                &&& count::<FilePackage>(y->0) < u32::MAX
            }
        },
{
}

/// A folder that has children gets another one if the list of its children has an end, and one without any
/// always does.
pub proof fn law_adopt_succeeds(v: ArchiveView, f: u32, link: u32)
    ensures
        at::<SearchFolder>(v, f).first_child_index == u32::MAX ==> adopt(v, f, link) is Some,
        at::<SearchFolder>(v, f).first_child_index != u32::MAX ==> (adopt(v, f, link) is Some
            <==> append_child(v, f, link) is Some),
{
    reveal(adopt);
}

/// A folder for the new costume that is not there is made if its hash is in use neither for a folder nor for a
/// path, if there is room, and if it can be put behind the children of its parent.
pub proof fn law_costume_folder_made(v: ArchiveView, old_folder: SearchPath, costume: Hash40)
    requires
        v.wf(),
    ensures
        ({
            let parent = old_folder.spec_parent();
            let path = below(parent, costume);
            let w = v.insert_search_folder(SearchFolder::bare(path, parent, costume));
            let x = w.insert_search_path(SearchPath::folder(path, parent, costume));
            v.find_search_folder(path) is None ==> (costume_folder(v, old_folder, costume) is Some <==> {
                &&& v.search.search_folder_lookup.get(path.0) is None
                &&& v.search.search_path_lookup.get(path.0) is None
                &&& count::<SearchFolder>(v) < u32::MAX
                &&& count::<SearchPath>(v) < u32::MAX
                &&& count::<SearchPathLink>(v) < u32::MAX
                &&& x.find_search_folder(parent) matches Some(p) && append_child(
                    x,
                    p,
                    count::<SearchPathLink>(v) as u32,
                ) is Some
            })
        }),
{
    reveal(costume_folder);
    let parent = old_folder.spec_parent();
    let path = below(parent, costume);
    crate::copy_laws::lemma_below_wf(parent, costume);
    crate::data::law_hash_with_data(path, 0);
    crate::data::law_new_search_path(path, parent, costume, costume);
}

/// A sound bank gets a search path if its name is known and it has one already, or if the hash is not in use,
/// there is room, and it can be put behind the children of its folder.
pub proof fn law_sound_bank_succeeds(
    v: ArchiveView,
    folder: Hash40,
    file: FilePath,
    old_costume: Hash40,
    costume: Hash40,
    names: SlabView,
)
    requires
        v.wf(),
    ensures
        ({
            let extension = first_name(names, file.spec_extension());
            let old_name = first_name(names, old_costume);
            let name = renamed_bank(
                file.spec_file_name(),
                file.spec_extension(),
                extension->0,
                old_name->0,
                costume,
            );
            let path = below(folder, name);
            let w = v.insert_search_path(SearchPath::file(path, folder, name, file.spec_extension()));
            sound_bank(v, folder, file, old_costume, costume, names) is Some <==> {
                &&& extension is Some
                &&& old_name is Some
                &&& v.find_search_path(path) is Some || {
                    &&& v.search.search_path_lookup.get(path.0) is None
                    &&& count::<SearchPath>(v) < u32::MAX
                    &&& count::<SearchPathLink>(v) < u32::MAX
                    &&& w.find_search_folder(folder) matches Some(f) && append_child(
                        w,
                        f,
                        count::<SearchPathLink>(v) as u32,
                    ) is Some
                }
            }
        }),
{
    reveal(sound_bank);
    let name = renamed_bank(
        file.spec_file_name(),
        file.spec_extension(),
        first_name(names, file.spec_extension())->0,
        first_name(names, old_costume)->0,
        costume,
    );
    crate::copy_laws::lemma_below_wf(folder, name);
    crate::data::law_new_search_path(below(folder, name), folder, name, file.spec_extension());
}

/// The first string that a hash stands for is told if the hash is known.
pub proof fn law_first_name(names: SlabView, hash: Hash40)
    ensures
        names.components_of(hash) is None ==> first_name(names, hash) is None,
        names.components_of(hash) matches Some(parts) ==> parts.len() > 0 ==> first_name(names, hash) == Some(
            parts[0],
        ),
{
}

/// A child package is copied exactly if it is there with its group and its files, has no children of its own,
/// if there is room for another group, if its contents can be copied and its files given paths, and if the path
/// of the copy is not in use. The children of a package are replaced if each of them is in turn.
pub proof fn law_duplicate_child_succeeds(
    v: ArchiveView,
    path: Hash40,
    new_parent: Hash40,
    old_costume: Hash40,
    costume: Hash40,
    names: SlabView,
    start: u32,
    end: int,
)
    requires
        start < end <= u32::MAX,
    ensures
        v.find_file_package(path) is None ==> duplicate_child(
            v,
            path,
            new_parent,
            old_costume,
            costume,
            names,
        ) is None,
        v.find_file_package(path) matches Some(p) ==> {
            let source = at::<FilePackage>(v, p);
            let g = count::<FileGroup>(v) as u32;
            let group = copied_group(v, source, |q: FilePackage| q.spec_parent() == source.spec_parent());
            let bare = copied_package(
                source,
                below(new_parent, source.spec_name()),
                source.spec_name(),
                new_parent,
                g,
            );
            let contents = copy_contents(pushed(v, group->0), bare, g, source);
            let (w, copy) = contents->0;
            let x = costume_infos(
                w,
                copy.info_start,
                copy.info_start + copy.info_count,
                old_costume,
                costume,
                names,
            );
            duplicate_child(v, path, new_parent, old_costume, costume, names) is Some <==> {
                &&& group is Some
                &&& 0 < source.info_start + source.info_count <= count::<FileInfo>(v)
                &&& 0 < source.child_start <= count::<FilePackageChild>(v)
                &&& source.child_count == 0
                &&& count::<FileGroup>(v) < u32::MAX
                &&& contents is Some
                &&& x is Some
                &&& x->0.resource.file_package_lookup.get(copy.spec_path().0) is None
                &&& count::<FilePackage>(x->0) < u32::MAX
            }
        },
        replace_children(v, start, start as int, new_parent, old_costume, costume, names) == Some(v),
        replace_children(v, start, end, new_parent, old_costume, costume, names) is Some <==> {
            let w = replace_children(v, start, end - 1, new_parent, old_costume, costume, names);
            let i = (end - 1) as u32;
            &&& w is Some
            &&& holds::<FilePackageChild>(w->0, i)
            &&& duplicate_child(
                w->0,
                at::<FilePackageChild>(w->0, i).spec_path(),
                new_parent,
                old_costume,
                costume,
                names,
            ) is Some
        },
{
    reveal(duplicate_child);
    reveal(replace_child);
}

/// The files of a folder are retargeted exactly if the folder and the package are there, if the children up to
/// the last one are retargeted in turn, and if then each info of the package is.
pub proof fn law_retarget_all_succeeds(
    v: ArchiveView,
    package: Hash40,
    parent: Hash40,
    new_parent: Hash40,
    prefs: LocalePreferences,
    c: u32,
    fuel: nat,
    start: u32,
    end: int,
)
    requires
        start < end <= u32::MAX,
    ensures
        ({
            let f = v.find_search_folder(parent);
            let first = v.follow(at::<SearchFolder>(v, f->0).first_child_index);
            let w = retarget_children(v, first->0, new_parent, count::<SearchPath>(v));
            let p = w->0.find_file_package(package);
            let record = at::<FilePackage>(w->0, p->0);
            let stop = record.info_start + record.info_count;
            retarget(v, package, parent, new_parent, prefs) is Some <==> {
                &&& f is Some
                &&& first is Some
                &&& w is Some
                &&& p is Some
                &&& 0 < stop <= count::<FileInfo>(w->0)
                &&& retarget_infos(
                    w->0,
                    record.info_start,
                    stop,
                    spec_with(parent, encode_utf8("/"@)),
                    prefs,
                ) is Some
            }
        }),
        at::<SearchPath>(v, c).spec_is_end() ==> retarget_children(v, c, new_parent, fuel) == Some(v),
        !at::<SearchPath>(v, c).spec_is_end() && fuel > 0 ==> (retarget_children(v, c, new_parent, fuel) is Some
            <==> {
            let w = retarget_child(v, c, new_parent);
            let next = w->0.follow(at::<SearchPath>(v, c).next_index());
            &&& w is Some
            &&& next is Some
            &&& retarget_children(w->0, next->0, new_parent, (fuel - 1) as nat) is Some
        }),
        retarget_infos(v, start, start as int, parent, prefs) == Some(v),
        retarget_infos(v, start, end, parent, prefs) is Some <==> {
            let w = retarget_infos(v, start, end - 1, parent, prefs);
            w is Some && retarget_info(w->0, (end - 1) as u32, parent, prefs) is Some
        },
{
}

} // verus!
