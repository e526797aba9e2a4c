//! What copying the package of a costume keeps, and what it brings about.

use crate::access::{at, count, holds, law_stored, pushed, with};
use crate::add_files::append_child;
use crate::archive::ArchiveView;
use crate::data::{
    FileData, FileDescriptor, FileEntity, FileGroup, FileInfo, FileLoadMethod, FilePackage,
    FilePackageChild, FilePath, SearchFolder, SearchPath, SearchPathLink, INFO_SHARED_AND_UNKNOWN,
};
use crate::hash40::{law_hash40_wf, spec_with, Hash40};
use crate::hash_interner::SlabView;
use crate::locale::LocalePreferences;
use crate::lookup::{law_insert_file_package, law_insert_search_folder};
use crate::packages::{
    adopt, below, copied_group, copied_package, copy_children, copy_contents, copy_info, copy_infos,
    costume_folder, costume_info, costume_infos, costume_search_path, duplicate_child,
    duplicate_package, file_in_folder, replace_child, replace_children, retarget, retarget_child,
    retarget_children, retarget_info, retarget_infos, sound_bank,
};
use crate::patch_laws::{
    grows, law_grows_reflexive, law_grows_transitive, lemma_append_child_grows, lemma_insert_path,
    lemma_insert_search, lemma_pushed_data, lemma_pushed_desc, lemma_pushed_info, lemma_with_desc,
    lemma_with_info, lemma_with_path_entity,
};
use vstd::prelude::*;
use vstd::utf8::encode_utf8;

verus! {

proof fn lemma_with_folder(v: ArchiveView, i: u32, x: SearchFolder)
    requires
        v.wf(),
        holds::<SearchFolder>(v, i),
    ensures
        grows(v, with(v, i, x)),
{
    law_stored(v, i, x);
}

pub(crate) proof fn lemma_with_child(v: ArchiveView, i: u32, x: FilePackageChild)
    requires
        v.wf(),
        holds::<FilePackageChild>(v, i),
    ensures
        grows(v, with(v, i, x)),
{
    law_stored(v, i, x);
}

proof fn lemma_pushed_child(v: ArchiveView, x: FilePackageChild)
    requires
        v.wf(),
        count::<FilePackageChild>(v) < u32::MAX,
    ensures
        grows(v, pushed(v, x)),
{
    law_stored(v, 0, x);
}

pub(crate) proof fn lemma_pushed_group(v: ArchiveView, x: FileGroup)
    requires
        v.wf(),
        count::<FileGroup>(v) < u32::MAX,
    ensures
        grows(v, pushed(v, x)),
{
    law_stored(v, 0, x);
}

proof fn lemma_insert_folder(v: ArchiveView, folder: SearchFolder)
    requires
        v.wf(),
        v.can_insert_search_folder(folder),
    ensures
        grows(v, v.insert_search_folder(folder)),
{
    law_insert_search_folder(v, folder, folder.spec_path());
}

pub(crate) proof fn lemma_insert_package(v: ArchiveView, package: FilePackage)
    requires
        v.wf(),
        v.can_insert_file_package(package),
    ensures
        grows(v, v.insert_file_package(package)),
{
    law_insert_file_package(v, package, package.spec_path());
    let w = v.insert_file_package(package);
    assert forall|h: Hash40| #[trigger] v.find_file_package(h) is Some implies w.find_file_package(h)
        == v.find_file_package(h) by {
        law_insert_file_package(v, package, h);
    }
}

pub(crate) proof fn lemma_copy_children_grows(v: ArchiveView, start: u32, end: int)
    requires
        v.wf(),
    ensures
        copy_children(v, start, end) matches Some(w) ==> grows(v, w),
    decreases end - start,
{
    if end <= start {
        law_grows_reflexive(v);
    } else {
        lemma_copy_children_grows(v, start, end - 1);
        if let Some(w) = copy_children(v, start, end - 1) {
            if count::<FilePackageChild>(w) < u32::MAX {
                let x = at::<FilePackageChild>(w, (end - 1) as u32);
                lemma_pushed_child(w, x);
                law_grows_transitive(v, w, pushed(w, x));
            }
        }
    }
}

pub(crate) proof fn lemma_copy_info_grows(v: ArchiveView, i: u32, group: u32)
    requires
        v.wf(),
    ensures
        copy_info(v, i, group) matches Some(w) ==> grows(v, w),
{
    reveal(copy_info);
    if copy_info(v, i, group) is Some {
        let info = at::<FileInfo>(v, i);
        let desc = at::<FileDescriptor>(v, info.desc);
        let method = if FileLoadMethod::of_raw(desc.load_method) is PackageSkip {
            desc.load_method
        } else {
            FileLoadMethod::Unowned(info.entity).raw()
        };
        let x1 = at::<FileData>(v, desc.file_data);
        let v1 = pushed(v, x1);
        lemma_pushed_data(v, x1);
        let x2 = FileDescriptor {
            group,
            file_data: count::<FileData>(v) as u32,
            load_method: method,
        };
        let v2 = pushed(v1, x2);
        lemma_pushed_desc(v1, x2);
        law_grows_transitive(v, v1, v2);
        let x3 = FileInfo {
            desc: count::<FileDescriptor>(v) as u32,
            flags: info.flags.non_localized().plus(INFO_SHARED_AND_UNKNOWN),
            ..info
        };
        lemma_pushed_info(v2, x3);
        law_grows_transitive(v, v2, pushed(v2, x3));
    }
}

proof fn lemma_copy_infos_grows(v: ArchiveView, start: u32, end: int, group: u32)
    requires
        v.wf(),
    ensures
        copy_infos(v, start, end, group) matches Some(w) ==> grows(v, w),
    decreases end - start,
{
    if end <= start {
        law_grows_reflexive(v);
    } else {
        lemma_copy_infos_grows(v, start, end - 1, group);
        if let Some(w) = copy_infos(v, start, end - 1, group) {
            lemma_copy_info_grows(w, (end - 1) as u32, group);
            if let Some(x) = copy_info(w, (end - 1) as u32, group) {
                law_grows_transitive(v, w, x);
            }
        }
    }
}

proof fn lemma_copy_contents_grows(v: ArchiveView, package: FilePackage, group: u32, source: FilePackage)
    requires
        v.wf(),
    ensures
        copy_contents(v, package, group, source) matches Some((w, _)) ==> grows(v, w),
{
    let children = source.child_start + source.child_count;
    lemma_copy_children_grows(v, source.child_start, children);
    if let Some(w) = copy_children(v, source.child_start, children) {
        let infos = source.info_start + source.info_count;
        lemma_copy_infos_grows(w, source.info_start, infos, group);
        if let Some(x) = copy_infos(w, source.info_start, infos, group) {
            law_grows_transitive(v, w, x);
        }
    }
}

proof fn lemma_costume_folder_grows(v: ArchiveView, old_folder: SearchPath, costume: Hash40)
    requires
        v.wf(),
    ensures
        costume_folder(v, old_folder, costume) matches Some((w, f)) ==> grows(v, w)
            && holds::<SearchFolder>(w, f),
{
    reveal(costume_folder);
    let parent = old_folder.spec_parent();
    let path = below(parent, costume);
    let folder = SearchFolder::bare(path, parent, costume);
    let search_path = SearchPath::folder(path, parent, costume);
    law_grows_reflexive(v);
    if v.find_search_folder(path) is None && v.can_insert_search_folder(folder) {
        let w = v.insert_search_folder(folder);
        lemma_insert_folder(v, folder);
        law_insert_search_folder(v, folder, folder.spec_path());
        if w.can_insert_search_path(search_path) {
            let x = w.insert_search_path(search_path);
            lemma_insert_search(w, search_path);
            law_grows_transitive(v, w, x);
            if let Some(p) = x.find_search_folder(parent) {
                let link = count::<SearchPathLink>(w) as u32;
                lemma_append_child_grows(x, p, link);
                if let Some(y) = append_child(x, p, link) {
                    law_grows_transitive(v, x, y);
                }
            }
        }
    }
}

proof fn lemma_adopt_grows(v: ArchiveView, f: u32, link: u32)
    requires
        v.wf(),
        holds::<SearchFolder>(v, f),
    ensures
        adopt(v, f, link) matches Some(w) ==> grows(v, w),
{
    reveal(adopt);
    let folder = at::<SearchFolder>(v, f);
    lemma_append_child_grows(v, f, link);
    lemma_with_folder(v, f, SearchFolder { first_child_index: link, ..folder });
}

proof fn lemma_file_in_folder_grows(v: ArchiveView, f: u32, file: FilePath)
    requires
        v.wf(),
        holds::<SearchFolder>(v, f),
    ensures
        file_in_folder(v, f, file) matches Some((w, _)) ==> grows(v, w),
{
    reveal(file_in_folder);
    let folder = at::<SearchFolder>(v, f).spec_path();
    let path = SearchPath::file(
        below(folder, file.spec_file_name()),
        folder,
        file.spec_file_name(),
        file.spec_extension(),
    );
    law_grows_reflexive(v);
    if v.can_insert_search_path(path) {
        let w = v.insert_search_path(path);
        lemma_insert_search(v, path);
        let link = count::<SearchPathLink>(v) as u32;
        lemma_adopt_grows(w, f, link);
        if let Some(x) = adopt(w, f, link) {
            law_grows_transitive(v, w, x);
        }
    }
}

proof fn lemma_sound_bank_grows(
    v: ArchiveView,
    folder: Hash40,
    file: FilePath,
    old_costume: Hash40,
    costume: Hash40,
    names: SlabView,
)
    requires
        v.wf(),
    ensures
        sound_bank(v, folder, file, old_costume, costume, names) matches Some((w, _)) ==> grows(v, w),
{
    reveal(sound_bank);
    law_grows_reflexive(v);
    if let (Some(extension_name), Some(old_name)) = (
        crate::packages::first_name(names, file.spec_extension()),
        crate::packages::first_name(names, old_costume),
    ) {
        let name = crate::packages::renamed_bank(
            file.spec_file_name(),
            file.spec_extension(),
            extension_name,
            old_name,
            costume,
        );
        let path = SearchPath::file(below(folder, name), folder, name, file.spec_extension());
        if v.can_insert_search_path(path) {
            let w = v.insert_search_path(path);
            lemma_insert_search(v, path);
            if let Some(f) = w.find_search_folder(folder) {
                let link = count::<SearchPathLink>(v) as u32;
                lemma_append_child_grows(w, f, link);
                if let Some(x) = append_child(w, f, link) {
                    law_grows_transitive(v, w, x);
                }
            }
        }
    }
}

proof fn lemma_costume_search_path_grows(
    v: ArchiveView,
    file: FilePath,
    old_costume: Hash40,
    costume: Hash40,
    names: SlabView,
)
    requires
        v.wf(),
    ensures
        costume_search_path(v, file, old_costume, costume, names) matches Some((w, _)) ==> grows(v, w),
{
    reveal(costume_search_path);
    if let Some(p) = v.find_search_path(
        crate::hash40::spec_trim(file.spec_parent(), encode_utf8("/"@)),
    ) {
        let folder = at::<SearchPath>(v, p);
        lemma_costume_folder_grows(v, folder, costume);
        lemma_sound_bank_grows(v, folder.spec_path(), file, old_costume, costume, names);
        if let Some((w, f)) = costume_folder(v, folder, costume) {
            lemma_file_in_folder_grows(w, f, file);
            if let Some((x, _)) = file_in_folder(w, f, file) {
                law_grows_transitive(v, w, x);
            }
        }
    }
}

pub(crate) proof fn lemma_costume_info_grows(
    v: ArchiveView,
    i: u32,
    old_costume: Hash40,
    costume: Hash40,
    names: SlabView,
)
    requires
        v.wf(),
    ensures
        costume_info(v, i, old_costume, costume, names) matches Some(w) ==> grows(v, w),
{
    reveal(costume_info);
    let info = at::<FileInfo>(v, i);
    let file = at::<FilePath>(v, info.path);
    if holds::<FileInfo>(v, i) && holds::<FilePath>(v, info.path) {
        lemma_costume_search_path_grows(v, file, old_costume, costume, names);
        if let Some((w, s)) = costume_search_path(v, file, old_costume, costume, names) {
            let path = FilePath::of_parts(
                s.spec_path(),
                spec_with(s.spec_parent(), encode_utf8("/"@)),
                s.spec_name(),
                s.extension.spec_hash40(),
                file.spec_entity(),
            );
            if let Some(p) = w.find_file_path(path.spec_path()) {
                let x = FileInfo { path: p, ..info };
                lemma_with_info(w, i, x);
                law_grows_transitive(v, w, with(w, i, x));
            } else if w.can_insert_file_path(path) {
                let x = w.insert_file_path(path);
                lemma_insert_path(w, path);
                law_grows_transitive(v, w, x);
                let y = FileInfo { path: count::<FilePath>(w) as u32, ..info };
                lemma_with_info(x, i, y);
                law_grows_transitive(v, x, with(x, i, y));
            }
        }
    }
}

proof fn lemma_costume_infos_grows(
    v: ArchiveView,
    start: u32,
    end: int,
    old_costume: Hash40,
    costume: Hash40,
    names: SlabView,
)
    requires
        v.wf(),
    ensures
        costume_infos(v, start, end, old_costume, costume, names) matches Some(w) ==> grows(v, w),
    decreases end - start,
{
    if end <= start {
        law_grows_reflexive(v);
    } else {
        lemma_costume_infos_grows(v, start, end - 1, old_costume, costume, names);
        if let Some(w) = costume_infos(v, start, end - 1, old_costume, costume, names) {
            lemma_costume_info_grows(w, (end - 1) as u32, old_costume, costume, names);
            if let Some(x) = costume_info(w, (end - 1) as u32, old_costume, costume, names) {
                law_grows_transitive(v, w, x);
            }
        }
    }
}

proof fn lemma_duplicate_child_grows(
    v: ArchiveView,
    path: Hash40,
    new_parent: Hash40,
    old_costume: Hash40,
    costume: Hash40,
    names: SlabView,
)
    requires
        v.wf(),
    ensures
        duplicate_child(v, path, new_parent, old_costume, costume, names) matches Some((w, _)) ==> grows(
            v,
            w,
        ),
{
    reveal(duplicate_child);
    if duplicate_child(v, path, new_parent, old_costume, costume, names) is Some {
        let source = at::<FilePackage>(v, v.find_file_package(path)->0);
        let g = count::<FileGroup>(v) as u32;
        let bare = copied_package(
            source,
            below(new_parent, source.spec_name()),
            source.spec_name(),
            new_parent,
            g,
        );
        let group = copied_group(
            v,
            source,
            |q: FilePackage| q.spec_parent() == source.spec_parent(),
        )->0;
        let v1 = pushed(v, group);
        lemma_pushed_group(v, group);
        lemma_copy_contents_grows(v1, bare, g, source);
        let (w, package) = copy_contents(v1, bare, g, source)->0;
        law_grows_transitive(v, v1, w);
        let end = package.info_start + package.info_count;
        lemma_costume_infos_grows(w, package.info_start, end, old_costume, costume, names);
        let x = costume_infos(w, package.info_start, end, old_costume, costume, names)->0;
        law_grows_transitive(v, w, x);
        lemma_insert_package(x, package);
        law_grows_transitive(v, x, x.insert_file_package(package));
    }
}

proof fn lemma_replace_children_grows(
    v: ArchiveView,
    start: u32,
    end: int,
    new_parent: Hash40,
    old_costume: Hash40,
    costume: Hash40,
    names: SlabView,
)
    requires
        v.wf(),
    ensures
        replace_children(v, start, end, new_parent, old_costume, costume, names) matches Some(w)
            ==> grows(v, w),
    decreases end - start,
{
    if end <= start {
        law_grows_reflexive(v);
    } else {
        lemma_replace_children_grows(v, start, end - 1, new_parent, old_costume, costume, names);
        if let Some(w) = replace_children(
            v,
            start,
            end - 1,
            new_parent,
            old_costume,
            costume,
            names,
        ) {
            reveal(replace_child);
            let i = (end - 1) as u32;
            let path = at::<FilePackageChild>(w, i).spec_path();
            lemma_duplicate_child_grows(w, path, new_parent, old_costume, costume, names);
            if let Some((x, child)) = duplicate_child(
                w,
                path,
                new_parent,
                old_costume,
                costume,
                names,
            ) {
                law_grows_transitive(v, w, x);
                if holds::<FilePackageChild>(w, i) {
                    lemma_with_child(x, i, child);
                    law_grows_transitive(v, x, with(x, i, child));
                }
            }
        }
    }
}

/// Copying the package of a costume loses nothing: every path and every package that was there is found
/// at the same index. The new package is found by the path of the new costume. It has the name of the
/// costume, the parent of the old package, and as many files and children.
pub proof fn law_duplicated_package(v: ArchiveView, path: Hash40, costume: Hash40, names: SlabView)
    requires
        v.wf(),
        costume.wf(),
        v.find_file_package(path) matches Some(p) ==> at::<FilePackage>(v, p).spec_parent().wf(),
    ensures
        duplicate_package(v, path, costume, names) matches Some(w) ==> {
            let source = at::<FilePackage>(v, v.find_file_package(path)->0);
            let p = w.find_file_package(below(source.spec_parent(), costume));
            let copy = at::<FilePackage>(w, p->0);
            &&& grows(v, w)
            &&& v.find_file_package(path) is Some
            &&& p is Some
            &&& copy.spec_name() == costume
            &&& copy.spec_parent() == source.spec_parent()
            &&& copy.info_count == source.info_count
            &&& copy.child_count == source.child_count
        },
{
    if duplicate_package(v, path, costume, names) is Some {
        let source = at::<FilePackage>(v, v.find_file_package(path)->0);
        let old_costume = source.spec_name();
        let parent = source.spec_parent();
        let g = count::<FileGroup>(v) as u32;
        let bare = copied_package(source, below(parent, costume), costume, parent, g);
        let group = copied_group(v, source, |q: FilePackage| q.spec_name() == source.spec_name())->0;
        let v1 = pushed(v, group);
        lemma_pushed_group(v, group);
        lemma_copy_contents_grows(v1, bare, g, source);
        let (w, package) = copy_contents(v1, bare, g, source)->0;
        law_grows_transitive(v, v1, w);
        let children = package.child_start + package.child_count;
        lemma_replace_children_grows(
            w,
            package.child_start,
            children,
            package.spec_path(),
            old_costume,
            costume,
            names,
        );
        let x = replace_children(
            w,
            package.child_start,
            children,
            package.spec_path(),
            old_costume,
            costume,
            names,
        )->0;
        law_grows_transitive(v, w, x);
        let end = package.info_start + package.info_count;
        lemma_costume_infos_grows(x, package.info_start, end, old_costume, costume, names);
        let y = costume_infos(x, package.info_start, end, old_costume, costume, names)->0;
        law_grows_transitive(v, x, y);
        lemma_insert_package(y, package);
        law_insert_file_package(y, package, path);
        law_grows_transitive(v, y, y.insert_file_package(package));
        law_hash40_wf(spec_with(parent, encode_utf8("/"@)), costume, Seq::empty());
        lemma_copied_package(source, below(parent, costume), costume, parent, g);
    }
}

proof fn lemma_copied_package(source: FilePackage, path: Hash40, name: Hash40, parent: Hash40, group: u32)
    requires
        path.wf(),
        name.wf(),
        parent.wf(),
    ensures
        copied_package(source, path, name, parent, group).spec_path() == path,
        copied_package(source, path, name, parent, group).spec_name() == name,
        copied_package(source, path, name, parent, group).spec_parent() == parent,
{
    crate::data::law_hash_with_data(path, 0xFF_FFFF);
    crate::data::law_hash_with_data(name, 0);
    crate::data::law_hash_with_data(parent, 0);
}

proof fn lemma_retarget_child_grows(v: ArchiveView, c: u32, new_parent: Hash40)
    requires
        v.wf(),
    ensures
        retarget_child(v, c, new_parent) matches Some(w) ==> grows(v, w),
{
    reveal(retarget_child);
    let child = at::<SearchPath>(v, c);
    if let (Some(t), Some(p)) = (
        v.find_file_path(below(new_parent, child.spec_name())),
        v.find_file_path(child.spec_path()),
    ) {
        lemma_with_path_entity(v, p, at::<FilePath>(v, t).spec_entity());
    }
}

proof fn lemma_retarget_children_grows(v: ArchiveView, c: u32, new_parent: Hash40, fuel: nat)
    requires
        v.wf(),
    ensures
        retarget_children(v, c, new_parent, fuel) matches Some(w) ==> grows(v, w),
    decreases fuel,
{
    law_grows_reflexive(v);
    let child = at::<SearchPath>(v, c);
    if !child.spec_is_end() && fuel > 0 {
        lemma_retarget_child_grows(v, c, new_parent);
        if let Some(w) = retarget_child(v, c, new_parent) {
            if let Some(next) = w.follow(child.next_index()) {
                lemma_retarget_children_grows(w, next, new_parent, (fuel - 1) as nat);
                if let Some(x) = retarget_children(w, next, new_parent, (fuel - 1) as nat) {
                    law_grows_transitive(v, w, x);
                }
            }
        }
    }
}

proof fn lemma_retarget_infos_grows(
    v: ArchiveView,
    start: u32,
    end: int,
    parent: Hash40,
    prefs: LocalePreferences,
)
    requires
        v.wf(),
    ensures
        retarget_infos(v, start, end, parent, prefs) matches Some(w) ==> grows(v, w),
    decreases end - start,
{
    if end <= start {
        law_grows_reflexive(v);
    } else {
        lemma_retarget_infos_grows(v, start, end - 1, parent, prefs);
        if let Some(w) = retarget_infos(v, start, end - 1, parent, prefs) {
            lemma_retarget_info_grows(w, (end - 1) as u32, parent, prefs);
            if let Some(x) = retarget_info(w, (end - 1) as u32, parent, prefs) {
                law_grows_transitive(v, w, x);
            }
        }
    }
}

proof fn lemma_retarget_info_grows(v: ArchiveView, i: u32, parent: Hash40, prefs: LocalePreferences)
    requires
        v.wf(),
    ensures
        retarget_info(v, i, parent, prefs) matches Some(w) ==> grows(v, w),
{
    reveal(retarget_info);
    law_grows_reflexive(v);
    let info = at::<FileInfo>(v, i);
    let path = at::<FilePath>(v, info.path);
    let entity = path.spec_entity();
    let shared = at::<FileEntity>(v, info.entity).info;
    let source = at::<FileInfo>(v, shared).desc;
    let d = info.spec_desc_index(prefs);
    law_stored(v, 0, at::<FileDescriptor>(v, 0));
    if retarget_info(v, i, parent, prefs) is Some && path.spec_parent() == parent {
        let x1 = FileDescriptor {
            load_method: FileLoadMethod::Unowned(entity).raw(),
            ..at::<FileDescriptor>(v, source)
        };
        let v1 = with(v, d as u32, x1);
        lemma_with_desc(v, d as u32, x1);
        let x2 = FileInfo { entity, flags: info.flags.plus(INFO_SHARED_AND_UNKNOWN), ..info };
        lemma_with_info(v1, i, x2);
        law_grows_transitive(v, v1, with(v1, i, x2));
    }
}

/// Letting the files of one folder share with those of another loses nothing.
pub proof fn law_retargeted_grows(
    v: ArchiveView,
    package: Hash40,
    parent: Hash40,
    new_parent: Hash40,
    prefs: LocalePreferences,
)
    requires
        v.wf(),
    ensures
        retarget(v, package, parent, new_parent, prefs) matches Some(w) ==> grows(v, w),
{
    if retarget(v, package, parent, new_parent, prefs) is Some {
        let f = v.find_search_folder(parent)->0;
        let c = v.follow(at::<SearchFolder>(v, f).first_child_index)->0;
        let fuel = count::<SearchPath>(v);
        lemma_retarget_children_grows(v, c, new_parent, fuel);
        let w = retarget_children(v, c, new_parent, fuel)->0;
        let record = at::<FilePackage>(w, w.find_file_package(package)->0);
        let end = record.info_start + record.info_count;
        let below = spec_with(parent, encode_utf8("/"@));
        lemma_retarget_infos_grows(w, record.info_start, end, below, prefs);
        law_grows_transitive(
            v,
            w,
            retarget_infos(w, record.info_start, end, below, prefs)->0,
        );
    }
}

} // verus!
