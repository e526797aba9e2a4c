//! Adding packages for new costumes.
//!
//! The package of a fighter's costume is copied together with its child packages. The copies share
//! the data of their files with what they were copied from. The files get paths of their own, in which
//! the name of the new costume stands in place of the old one.

use crate::access::{at, count, has_run, holds, law_stored, pushed, with};
use crate::add_files::{append_child, append_to_folder};
use crate::archive::{Archive, ArchiveView};
use crate::data::{
    law_non_localized_flags, FileData, FileDescriptor, FileEntity, FileGroup, FileInfo, FileLoadMethod,
    FilePackage, FilePackageChild, FilePackageFlags, FilePath, IntoHash, SearchFolder, SearchPath,
    SearchPathLink, INFO_ALL_BUT_LOCALIZED, INFO_SHARED_AND_UNKNOWN, PACKAGE_ALL_BUT_REGIONAL,
    PACKAGE_HAS_SUB_PACKAGE, PACKAGE_IS_SYM_LINK,
};
use crate::hash40::{hash40_str, spec_trim, spec_with, spec_with_hash, Hash40};
use crate::hash_interner::{buffered, strings_of, HashMemorySlab, SlabView};
use crate::locale::LocalePreferences;
use crate::navigate::with_path_entity;
use crate::reshare::room;
use vstd::prelude::*;
use vstd::utf8::encode_utf8;

verus! {

/// The hash of a path below a folder.
pub open spec fn below(folder: Hash40, name: Hash40) -> Hash40 {
    spec_with_hash(spec_with(folder, encode_utf8("/"@)), name)
}

fn path_below(folder: Hash40, name: Hash40) -> (r: Hash40)
    ensures
        r == below(folder, name),
{
    folder.const_with("/").const_with_hash(name)
}

/// The archive with copies of the children `start..end` of a package.
pub open spec fn copy_children(v: ArchiveView, start: u32, end: int) -> Option<ArchiveView>
    decreases end - start,
{
    if end <= start {
        Some(v)
    } else {
        match copy_children(v, start, end - 1) {
            Some(w) => if holds::<FilePackageChild>(w, (end - 1) as u32) && room::<FilePackageChild>(w) {
                Some(pushed(w, at::<FilePackageChild>(w, (end - 1) as u32)))
            } else {
                None
            },
            None => None,
        }
    }
}

/// The archive with a copy of info `i` that shares its data, as a file of group `group`. Files that are
/// skipped in packages stay so.
#[verifier::opaque]
pub open spec fn copy_info(v: ArchiveView, i: u32, group: u32) -> Option<ArchiveView> {
    let info = at::<FileInfo>(v, i);
    let desc = at::<FileDescriptor>(v, info.desc);
    let method = if FileLoadMethod::of_raw(desc.load_method) is PackageSkip {
        desc.load_method
    } else {
        FileLoadMethod::Unowned(info.entity).raw()
    };
    if !holds::<FileInfo>(v, i) || !holds::<FileEntity>(v, info.entity) || !holds::<FileDescriptor>(
        v,
        info.desc,
    ) || !holds::<FileData>(v, desc.file_data) || !FileLoadMethod::is_known(desc.load_method)
        || !room::<FileData>(v) || !room::<FileDescriptor>(v) || !room::<FileInfo>(v) {
        None
    } else {
        let v1 = pushed(v, at::<FileData>(v, desc.file_data));
        let v2 = pushed(
            v1,
            FileDescriptor { group, file_data: count::<FileData>(v) as u32, load_method: method },
        );
        Some(
            pushed(
                v2,
                FileInfo {
                    desc: count::<FileDescriptor>(v) as u32,
                    flags: info.flags.non_localized().plus(INFO_SHARED_AND_UNKNOWN),
                    ..info
                },
            ),
        )
    }
}

/// The archive with copies of the infos `start..end`.
pub open spec fn copy_infos(v: ArchiveView, start: u32, end: int, group: u32) -> Option<ArchiveView>
    decreases end - start,
{
    if end <= start {
        Some(v)
    } else {
        match copy_infos(v, start, end - 1, group) {
            Some(w) => copy_info(w, (end - 1) as u32, group),
            None => None,
        }
    }
}

/// The archive with copies of the children and the infos of `source`, and `package` with these copies
/// for its own.
pub open spec fn copy_contents(
    v: ArchiveView,
    package: FilePackage,
    group: u32,
    source: FilePackage,
) -> Option<(ArchiveView, FilePackage)> {
    match copy_children(v, source.child_start, source.child_start + source.child_count) {
        Some(w) => match copy_infos(
            w,
            source.info_start,
            source.info_start + source.info_count,
            group,
        ) {
            Some(x) => Some(
                (
                    x,
                    FilePackage {
                        child_start: count::<FilePackageChild>(v) as u32,
                        child_count: source.child_count,
                        info_start: count::<FileInfo>(w) as u32,
                        info_count: source.info_count,
                        ..package
                    },
                ),
            ),
            None => None,
        },
        None => None,
    }
}

/// The folder of the new costume beside that of the old one, after it was made if it was not there.
#[verifier::opaque]
pub open spec fn costume_folder(v: ArchiveView, old_folder: SearchPath, costume: Hash40) -> Option<
    (ArchiveView, u32),
> {
    let parent = old_folder.spec_parent();
    let path = below(parent, costume);
    let folder = SearchFolder::bare(path, parent, costume);
    let search_path = SearchPath::folder(path, parent, costume);
    match v.find_search_folder(path) {
        Some(f) => Some((v, f)),
        None => if !v.can_insert_search_folder(folder) {
            None
        } else {
            let w = v.insert_search_folder(folder);
            if !w.can_insert_search_path(search_path) {
                None
            } else {
                let x = w.insert_search_path(search_path);
                match x.find_search_folder(parent) {
                    Some(p) => match append_child(x, p, count::<SearchPathLink>(w) as u32) {
                        Some(y) => Some((y, count::<SearchFolder>(v) as u32)),
                        None => None,
                    },
                    None => None,
                }
            }
        },
    }
}

/// The archive in which `link` is the last child of folder `f`, or its only one.
#[verifier::opaque]
pub open spec fn adopt(v: ArchiveView, f: u32, link: u32) -> Option<ArchiveView> {
    let folder = at::<SearchFolder>(v, f);
    if folder.spec_has_first_child() {
        append_child(v, f, link)
    } else {
        Some(with(v, f, SearchFolder { first_child_index: link, ..folder }))
    }
}

/// The search path of a file in folder `f`, after it was made if it was not there.
#[verifier::opaque]
pub open spec fn file_in_folder(v: ArchiveView, f: u32, file: FilePath) -> Option<
    (ArchiveView, SearchPath),
> {
    let folder = at::<SearchFolder>(v, f).spec_path();
    let path = SearchPath::file(
        below(folder, file.spec_file_name()),
        folder,
        file.spec_file_name(),
        file.spec_extension(),
    );
    match v.find_search_path(path.spec_path()) {
        Some(p) => Some((v, at::<SearchPath>(v, p))),
        None => if !v.can_insert_search_path(path) {
            None
        } else {
            match adopt(v.insert_search_path(path), f, count::<SearchPathLink>(v) as u32) {
                Some(w) => Some((w, path)),
                None => None,
            }
        },
    }
}

/// Is this the folder of the sound banks, or that of the voices?
pub open spec fn is_sound_bank(folder: Hash40) -> bool {
    folder == hash40_str("sound/bank/fighter"@) || folder == hash40_str("sound/bank/fighter_voice"@)
}

/// The first string that a hash stands for.
pub open spec fn first_name(names: SlabView, hash: Hash40) -> Option<Seq<u8>> {
    match names.components_of(hash) {
        Some(parts) => if parts.len() > 0 {
            Some(parts[0])
        } else {
            None
        },
        None => None,
    }
}

/// The name of a sound bank with the new costume in place of the old one: the old costume stands in
/// front of the dot and the extension.
pub open spec fn renamed_bank(
    file_name: Hash40,
    extension: Hash40,
    extension_name: Seq<u8>,
    old_name: Seq<u8>,
    costume: Hash40,
) -> Hash40 {
    let dot = encode_utf8("."@);
    let stem = spec_trim(spec_trim(spec_trim(file_name, extension_name), dot), old_name);
    spec_with_hash(spec_with(spec_with_hash(stem, costume), dot), extension)
}

/// The search path of a sound bank of the new costume, after it was made if it was not there.
#[verifier::opaque]
pub open spec fn sound_bank(
    v: ArchiveView,
    folder: Hash40,
    file: FilePath,
    old_costume: Hash40,
    costume: Hash40,
    names: SlabView,
) -> Option<(ArchiveView, SearchPath)> {
    match (first_name(names, file.spec_extension()), first_name(names, old_costume)) {
        (Some(extension_name), Some(old_name)) => {
            let name = renamed_bank(
                file.spec_file_name(),
                file.spec_extension(),
                extension_name,
                old_name,
                costume,
            );
            let path = SearchPath::file(below(folder, name), folder, name, file.spec_extension());
            match v.find_search_path(path.spec_path()) {
                Some(p) => Some((v, at::<SearchPath>(v, p))),
                None => if !v.can_insert_search_path(path) {
                    None
                } else {
                    let w = v.insert_search_path(path);
                    match w.find_search_folder(folder) {
                        Some(f) => match append_child(w, f, count::<SearchPathLink>(v) as u32) {
                            Some(x) => Some((x, path)),
                            None => None,
                        },
                        None => None,
                    }
                },
            }
        },
        _ => None,
    }
}

/// The search path that a file gets for the new costume.
#[verifier::opaque]
pub open spec fn costume_search_path(
    v: ArchiveView,
    file: FilePath,
    old_costume: Hash40,
    costume: Hash40,
    names: SlabView,
) -> Option<(ArchiveView, SearchPath)> {
    match v.find_search_path(spec_trim(file.spec_parent(), encode_utf8("/"@))) {
        Some(p) => {
            let folder = at::<SearchPath>(v, p);
            if folder.spec_name() == old_costume {
                match costume_folder(v, folder, costume) {
                    Some((w, f)) => file_in_folder(w, f, file),
                    None => None,
                }
            } else if is_sound_bank(folder.spec_path()) {
                sound_bank(v, folder.spec_path(), file, old_costume, costume, names)
            } else {
                None
            }
        },
        None => None,
    }
}

/// The archive in which info `i` has a path for the new costume. The path shares the entity of the old
/// one if it was not there.
#[verifier::opaque]
pub open spec fn costume_info(
    v: ArchiveView,
    i: u32,
    old_costume: Hash40,
    costume: Hash40,
    names: SlabView,
) -> Option<ArchiveView> {
    let info = at::<FileInfo>(v, i);
    let file = at::<FilePath>(v, info.path);
    if !holds::<FileInfo>(v, i) || !holds::<FilePath>(v, info.path) {
        None
    } else {
        match costume_search_path(v, file, old_costume, costume, names) {
            Some((w, s)) => {
                let path = FilePath::of_parts(
                    s.spec_path(),
                    spec_with(s.spec_parent(), encode_utf8("/"@)),
                    s.spec_name(),
                    s.extension.spec_hash40(),
                    file.spec_entity(),
                );
                if s.spec_is_folder() {
                    None
                } else {
                    match w.find_file_path(path.spec_path()) {
                        Some(p) => Some(with(w, i, FileInfo { path: p, ..info })),
                        None => if w.can_insert_file_path(path) {
                            Some(
                                with(
                                    w.insert_file_path(path),
                                    i,
                                    FileInfo { path: count::<FilePath>(w) as u32, ..info },
                                ),
                            )
                        } else {
                            None
                        },
                    }
                }
            },
            None => None,
        }
    }
}

/// The infos `start..end`, one after the other.
pub open spec fn costume_infos(
    v: ArchiveView,
    start: u32,
    end: int,
    old_costume: Hash40,
    costume: Hash40,
    names: SlabView,
) -> Option<ArchiveView>
    decreases end - start,
{
    if end <= start {
        Some(v)
    } else {
        match costume_infos(v, start, end - 1, old_costume, costume, names) {
            Some(w) => costume_info(w, (end - 1) as u32, old_costume, costume, names),
            None => None,
        }
    }
}

/// The group for a copy of a package. What the package redirects to, the copy redirects to. A link to
/// a package that `clashes` with its source cannot be copied.
pub open spec fn copied_group(
    v: ArchiveView,
    source: FilePackage,
    clashes: spec_fn(FilePackage) -> bool,
) -> Option<FileGroup> {
    let r = at::<FileGroup>(v, source.spec_data_group()).redirection;
    if !holds::<FileGroup>(v, source.spec_data_group()) {
        None
    } else if !source.flags.has(PACKAGE_HAS_SUB_PACKAGE) {
        Some(FileGroup::fresh())
    } else if source.flags.has(PACKAGE_IS_SYM_LINK) && (!holds::<FilePackage>(v, r) || clashes(
        at::<FilePackage>(v, r),
    )) {
        None
    } else {
        Some(FileGroup { redirection: r, ..FileGroup::fresh() })
    }
}

/// The copy of a package, before it has contents. It is not regional, and bits of the flags that mean
/// nothing are cleared.
pub open spec fn copied_package(
    source: FilePackage,
    path: Hash40,
    name: Hash40,
    parent: Hash40,
    group: u32,
) -> FilePackage {
    let package = FilePackage::bare(path, name, parent, 0xFF_FFFF);
    FilePackage {
        path_and_group: package.path_and_group.with_data(group),
        flags: FilePackageFlags { bits: source.flags.bits & PACKAGE_ALL_BUT_REGIONAL },
        ..package
    }
}

/// Do the infos and the children of a package lie within their tables?
pub open spec fn runs_ok(v: ArchiveView, package: FilePackage) -> bool {
    has_run::<FileInfo>(v, package.info_start, package.info_count) && has_run::<FilePackageChild>(
        v,
        package.child_start,
        package.child_count,
    )
}

/// The archive with a copy of a child package for the new costume. Children must not have children.
#[verifier::opaque]
pub open spec fn duplicate_child(
    v: ArchiveView,
    path: Hash40,
    new_parent: Hash40,
    old_costume: Hash40,
    costume: Hash40,
    names: SlabView,
) -> Option<(ArchiveView, FilePackageChild)> {
    match v.find_file_package(path) {
        None => None,
        Some(p) => {
            let source = at::<FilePackage>(v, p);
            let g = count::<FileGroup>(v) as u32;
            let bare = copied_package(
                source,
                below(new_parent, source.spec_name()),
                source.spec_name(),
                new_parent,
                g,
            );
            match copied_group(v, source, |q: FilePackage| q.spec_parent() == source.spec_parent()) {
                Some(group) => if !runs_ok(v, source) || !room::<FileGroup>(v) || source.child_count
                    != 0 {
                    None
                } else {
                    match copy_contents(pushed(v, group), bare, g, source) {
                        Some((w, package)) => match costume_infos(
                            w,
                            package.info_start,
                            package.info_start + package.info_count,
                            old_costume,
                            costume,
                            names,
                        ) {
                            Some(x) => if x.can_insert_file_package(package) {
                                Some(
                                    (
                                        x.insert_file_package(package),
                                        FilePackageChild {
                                            path_and_package: crate::data::HashWithData::of(
                                                package.spec_path(),
                                                count::<FilePackage>(x) as u32,
                                            ),
                                        },
                                    ),
                                )
                            } else {
                                None
                            },
                            None => None,
                        },
                        None => None,
                    }
                },
                None => None,
            }
        },
    }
}

/// The archive in which child `i` of a copied package was itself copied.
#[verifier::opaque]
pub open spec fn replace_child(
    v: ArchiveView,
    i: u32,
    new_parent: Hash40,
    old_costume: Hash40,
    costume: Hash40,
    names: SlabView,
) -> Option<ArchiveView> {
    if !holds::<FilePackageChild>(v, i) {
        None
    } else {
        match duplicate_child(
            v,
            at::<FilePackageChild>(v, i).spec_path(),
            new_parent,
            old_costume,
            costume,
            names,
        ) {
            Some((w, child)) => Some(with(w, i, child)),
            None => None,
        }
    }
}

/// The children `start..end`, one after the other.
pub open spec fn replace_children(
    v: ArchiveView,
    start: u32,
    end: int,
    new_parent: Hash40,
    old_costume: Hash40,
    costume: Hash40,
    names: SlabView,
) -> Option<ArchiveView>
    decreases end - start,
{
    if end <= start {
        Some(v)
    } else {
        match replace_children(v, start, end - 1, new_parent, old_costume, costume, names) {
            Some(w) => replace_child(w, (end - 1) as u32, new_parent, old_costume, costume, names),
            None => None,
        }
    }
}

/// The archive with a copy of the package of a costume for a new one.
pub open spec fn duplicate_package(v: ArchiveView, path: Hash40, costume: Hash40, names: SlabView) -> Option<
    ArchiveView,
> {
    match v.find_file_package(path) {
        None => None,
        Some(p) => {
            let source = at::<FilePackage>(v, p);
            let old_costume = source.spec_name();
            let parent = source.spec_parent();
            let g = count::<FileGroup>(v) as u32;
            let bare = copied_package(source, below(parent, costume), costume, parent, g);
            match copied_group(v, source, |q: FilePackage| q.spec_name() == source.spec_name()) {
                Some(group) => if !runs_ok(v, source) || !room::<FileGroup>(v) {
                    None
                } else {
                    match copy_contents(pushed(v, group), bare, g, source) {
                        Some((w, package)) => match replace_children(
                            w,
                            package.child_start,
                            package.child_start + package.child_count,
                            package.spec_path(),
                            old_costume,
                            costume,
                            names,
                        ) {
                            Some(x) => match costume_infos(
                                x,
                                package.info_start,
                                package.info_start + package.info_count,
                                old_costume,
                                costume,
                                names,
                            ) {
                                Some(y) => if y.can_insert_file_package(package) {
                                    Some(y.insert_file_package(package))
                                } else {
                                    None
                                },
                                None => None,
                            },
                            None => None,
                        },
                        None => None,
                    }
                },
                None => None,
            }
        },
    }
}


proof fn lemma_copy_children_fails(v: ArchiveView, start: u32, a: int, b: int)
    requires
        start <= a <= b,
        copy_children(v, start, a) is None,
    ensures
        copy_children(v, start, b) is None,
    decreases b,
{
    if a < b {
        lemma_copy_children_fails(v, start, a, b - 1);
    }
}

proof fn lemma_copy_infos_fails(v: ArchiveView, start: u32, a: int, b: int, group: u32)
    requires
        start <= a <= b,
        copy_infos(v, start, a, group) is None,
    ensures
        copy_infos(v, start, b, group) is None,
    decreases b,
{
    if a < b {
        lemma_copy_infos_fails(v, start, a, b - 1, group);
    }
}

proof fn lemma_costume_infos_fails(
    v: ArchiveView,
    start: u32,
    a: int,
    b: int,
    old_costume: Hash40,
    costume: Hash40,
    names: SlabView,
)
    requires
        start <= a <= b,
        costume_infos(v, start, a, old_costume, costume, names) is None,
    ensures
        costume_infos(v, start, b, old_costume, costume, names) is None,
    decreases b,
{
    if a < b {
        lemma_costume_infos_fails(v, start, a, b - 1, old_costume, costume, names);
    }
}

proof fn lemma_replace_children_fails(
    v: ArchiveView,
    start: u32,
    a: int,
    b: int,
    new_parent: Hash40,
    old_costume: Hash40,
    costume: Hash40,
    names: SlabView,
)
    requires
        start <= a <= b,
        replace_children(v, start, a, new_parent, old_costume, costume, names) is None,
    ensures
        replace_children(v, start, b, new_parent, old_costume, costume, names) is None,
    decreases b,
{
    if a < b {
        lemma_replace_children_fails(v, start, a, b - 1, new_parent, old_costume, costume, names);
    }
}

proof fn lemma_copy_info_counts(v: ArchiveView, i: u32, group: u32)
    ensures
        copy_info(v, i, group) matches Some(w) ==> count::<FileInfo>(w) == count::<FileInfo>(v) + 1
            && count::<FilePackageChild>(w) == count::<FilePackageChild>(v),
{
    reveal(copy_info);
}

fn exec_copy_info(archive: &mut Archive, i: u32, group: u32) -> (r: bool)
    requires
        old(archive).wf(),
    ensures
        final(archive).wf(),
        r == (copy_info(old(archive)@, i, group) is Some),
        r ==> copy_info(old(archive)@, i, group) == Some(final(archive)@),
{
    proof {
        reveal(copy_info);
        assert(0u32 & INFO_ALL_BUT_LOCALIZED == 0) by (bit_vector);
        law_non_localized_flags(at::<FileInfo>(archive@, i).flags, 0);
    }
    let Some(mut info) = archive.read::<FileInfo>(i) else {
        return false;
    };
    let entity: u32 = info.entity;
    let Some(_entity) = archive.read::<FileEntity>(entity) else {
        return false;
    };
    let Some(mut desc) = archive.read::<FileDescriptor>(info.desc) else {
        return false;
    };
    let Some(data) = archive.read::<FileData>(desc.file_data) else {
        return false;
    };
    let Some(method) = FileLoadMethod::from_raw(desc.load_method) else {
        return false;
    };
    let Some(data_idx) = archive.try_push(data) else {
        return false;
    };
    desc.set_data(data_idx);
    desc.set_group(group);
    if !method.is_skip() {
        desc.set_load_method(FileLoadMethod::Unowned(entity));
    }
    let Some(desc_idx) = archive.try_push(desc) else {
        return false;
    };
    info.set_non_localized();
    info.set_desc(desc_idx);
    let mut flags = info.flags();
    flags.set(INFO_SHARED_AND_UNKNOWN, true);
    info.set_flags(flags);
    archive.try_push(info).is_some()
}

/// Copies the children and the infos of a package.
fn exec_copy_contents(archive: &mut Archive, package: FilePackage, group: u32, source: FilePackage) -> (r:
    Option<FilePackage>)
    requires
        old(archive).wf(),
        runs_ok(old(archive)@, source),
    ensures
        final(archive).wf(),
        match (r, copy_contents(old(archive)@, package, group, source)) {
            (Some(p), Some((w, q))) => p == q && w == final(archive)@ && p.info_start + p.info_count
                <= u32::MAX && p.child_start + p.child_count <= u32::MAX,
            (None, None) => true,
            _ => false,
        },
{
    let ghost v = archive@;
    proof {
        law_stored(v, 0, at::<FilePackageChild>(v, 0));
        law_stored(v, 0, at::<FileInfo>(v, 0));
    }
    let child_start: u32 = archive.num::<FilePackageChild>() as u32;
    let end: u32 = source.child_start + source.child_count;
    let mut i: u32 = source.child_start;
    while i < end
        invariant
            source.child_start <= i <= end,
            end == source.child_start + source.child_count,
            archive.wf(),
            v == old(archive)@,
            copy_children(v, source.child_start, i as int) == Some(archive@),
            count::<FilePackageChild>(archive@) == child_start + (i - source.child_start),
            count::<FilePackageChild>(archive@) <= u32::MAX,
        decreases end - i,
    {
        let Some(child) = archive.read::<FilePackageChild>(i) else {
            proof {
                lemma_copy_children_fails(v, source.child_start, i + 1, end as int);
            }
            return None;
        };
        if archive.try_push(child).is_none() {
            proof {
                lemma_copy_children_fails(v, source.child_start, i + 1, end as int);
            }
            return None;
        }
        i += 1;
    }
    let ghost w = archive@;
    proof {
        law_stored(w, 0, at::<FileInfo>(w, 0));
        assert(count::<FileInfo>(w) == count::<FileInfo>(v)) by {
            lemma_copy_children_infos(v, source.child_start, end as int);
        }
    }
    let info_start: u32 = archive.num::<FileInfo>() as u32;
    let info_end: u32 = source.info_start + source.info_count;
    let mut j: u32 = source.info_start;
    while j < info_end
        invariant
            source.info_start <= j <= info_end,
            info_end == source.info_start + source.info_count,
            archive.wf(),
            copy_infos(w, source.info_start, j as int, group) == Some(archive@),
            count::<FileInfo>(archive@) == info_start + (j - source.info_start),
            count::<FileInfo>(archive@) <= u32::MAX,
            v == old(archive)@,
            copy_infos(w, source.info_start, info_end as int, group) is None ==> copy_contents(
                v,
                package,
                group,
                source,
            ) is None,
        decreases info_end - j,
    {
        proof {
            lemma_copy_info_counts(archive@, j, group);
            law_stored(archive@, 0, at::<FileInfo>(archive@, 0));
        }
        if !exec_copy_info(archive, j, group) {
            proof {
                lemma_copy_infos_fails(w, source.info_start, j + 1, info_end as int, group);
            }
            return None;
        }
        proof {
            law_stored(archive@, 0, at::<FileInfo>(archive@, 0));
        }
        j += 1;
    }
    let mut package = package;
    package.set_child_package_range(child_start, source.child_count);
    package.set_info_range(info_start, source.info_count);
    Some(package)
}

proof fn lemma_copy_children_infos(v: ArchiveView, start: u32, end: int)
    ensures
        copy_children(v, start, end) matches Some(w) ==> count::<FileInfo>(w) == count::<FileInfo>(v),
    decreases end - start,
{
    if end > start {
        lemma_copy_children_infos(v, start, end - 1);
    }
}

fn exec_costume_folder(archive: &mut Archive, old_folder: &SearchPath, costume: Hash40) -> (r: Option<
    u32,
>)
    requires
        old(archive).wf(),
    ensures
        final(archive).wf(),
        match (r, costume_folder(old(archive)@, *old_folder, costume)) {
            (Some(f), Some((w, g))) => f == g && w == final(archive)@ && holds::<SearchFolder>(w, f),
            (None, None) => true,
            _ => false,
        },
{
    proof {
        reveal(costume_folder);
        reveal(append_child);
    }
    let parent = old_folder.parent();
    let path = path_below(parent, costume);
    let found: Option<u32> = match archive.lookup_search_folder(path) {
        Some(folder) => Some(folder.index()),
        None => None,
    };
    if let Some(f) = found {
        return Some(f);
    }
    let folder = SearchFolder::new(path, parent, costume);
    let search_path = SearchPath::new_folder(path, parent, costume);
    let Some(f) = archive.try_insert_search_folder(folder) else {
        return None;
    };
    let Some(link) = archive.try_insert_search_path(search_path) else {
        return None;
    };
    let p: u32 = match archive.lookup_search_folder(parent) {
        Some(folder) => folder.index(),
        None => {
            return None;
        },
    };
    if append_to_folder(archive, p, link) {
        Some(f)
    } else {
        None
    }
}

fn exec_adopt(archive: &mut Archive, f: u32, link: u32) -> (r: bool)
    requires
        old(archive).wf(),
        holds::<SearchFolder>(old(archive)@, f),
    ensures
        final(archive).wf(),
        r == (adopt(old(archive)@, f, link) is Some),
        r ==> adopt(old(archive)@, f, link) == Some(final(archive)@),
{
    proof {
        reveal(adopt);
    }
    let Some(mut folder) = archive.read::<SearchFolder>(f) else {
        return false;
    };
    if folder.has_first_child() {
        append_to_folder(archive, f, link)
    } else {
        folder.set_first_child_index(link);
        archive.write(f, folder);
        true
    }
}

fn exec_file_in_folder(archive: &mut Archive, f: u32, file: &FilePath) -> (r: Option<SearchPath>)
    requires
        old(archive).wf(),
        holds::<SearchFolder>(old(archive)@, f),
    ensures
        final(archive).wf(),
        match (r, file_in_folder(old(archive)@, f, *file)) {
            (Some(s), Some((w, t))) => s == t && w == final(archive)@,
            (None, None) => true,
            _ => false,
        },
{
    proof {
        reveal(file_in_folder);
    }
    let Some(folder) = archive.read::<SearchFolder>(f) else {
        return None;
    };
    let folder_path = folder.path();
    let path = SearchPath::new(
        path_below(folder_path, file.file_name()),
        folder_path,
        file.file_name(),
        file.extension(),
    );
    let found: Option<SearchPath> = match archive.lookup_search_path(path.path()) {
        Some(s) => Some(s.get()),
        None => None,
    };
    if let Some(s) = found {
        return Some(s);
    }
    let Some(link) = archive.try_insert_search_path(path) else {
        return None;
    };
    if exec_adopt(archive, f, link) {
        Some(path)
    } else {
        None
    }
}

fn exec_first_name(names: &HashMemorySlab, hash: Hash40) -> (r: Option<Vec<u8>>)
    requires
        names.wf(),
        names@.sorted(),
    ensures
        match (r, first_name(names@, hash)) {
            (Some(a), Some(b)) => a@ == b,
            (None, None) => true,
            _ => false,
        },
{
    match names.buffer_str_components_for(hash, 1) {
        Some(mut parts) => {
            proof {
                let all = names@.components_of(hash)->0;
                let got = strings_of(parts@);
                assert(got.len() == parts@.len());
                assert(got.len() == buffered(all, 1));
                if all.len() > 0 {
                    assert(got[0] == all[0]);
                    assert(got[0] == parts@[0]@);
                }
            }
            parts.pop()
        },
        None => None,
    }
}

fn exec_sound_bank(
    archive: &mut Archive,
    folder: Hash40,
    file: &FilePath,
    old_costume: Hash40,
    costume: Hash40,
    names: &HashMemorySlab,
) -> (r: Option<SearchPath>)
    requires
        old(archive).wf(),
        names.wf(),
        names@.sorted(),
    ensures
        final(archive).wf(),
        match (r, sound_bank(old(archive)@, folder, *file, old_costume, costume, names@)) {
            (Some(s), Some((w, t))) => s == t && w == final(archive)@,
            (None, None) => true,
            _ => false,
        },
{
    proof {
        reveal(sound_bank);
    }
    let Some(extension_name) = exec_first_name(names, file.extension()) else {
        return None;
    };
    let Some(old_name) = exec_first_name(names, old_costume) else {
        return None;
    };
    let name = file.file_name().const_trim_trailing_bytes(&extension_name).const_trim_trailing(
        ".",
    ).const_trim_trailing_bytes(&old_name).const_with_hash(costume).const_with(".").const_with_hash(
        file.extension(),
    );
    let path = SearchPath::new(path_below(folder, name), folder, name, file.extension());
    let found: Option<SearchPath> = match archive.lookup_search_path(path.path()) {
        Some(s) => Some(s.get()),
        None => None,
    };
    if let Some(s) = found {
        return Some(s);
    }
    let Some(link) = archive.try_insert_search_path(path) else {
        return None;
    };
    let f: u32 = match archive.lookup_search_folder(folder) {
        Some(found) => found.index(),
        None => {
            return None;
        },
    };
    if append_to_folder(archive, f, link) {
        Some(path)
    } else {
        None
    }
}

fn exec_costume_search_path(
    archive: &mut Archive,
    file: &FilePath,
    old_costume: Hash40,
    costume: Hash40,
    names: &HashMemorySlab,
) -> (r: Option<SearchPath>)
    requires
        old(archive).wf(),
        names.wf(),
        names@.sorted(),
    ensures
        final(archive).wf(),
        match (r, costume_search_path(old(archive)@, *file, old_costume, costume, names@)) {
            (Some(s), Some((w, t))) => s == t && w == final(archive)@,
            (None, None) => true,
            _ => false,
        },
{
    proof {
        reveal(costume_search_path);
    }
    let folder = match archive.lookup_search_path(file.parent().const_trim_trailing("/")) {
        Some(found) => found.get(),
        None => {
            return None;
        },
    };
    if folder.name() == old_costume {
        let Some(f) = exec_costume_folder(archive, &folder, costume) else {
            return None;
        };
        exec_file_in_folder(archive, f, file)
    } else if folder.path() == Hash40::const_new("sound/bank/fighter") || folder.path()
        == Hash40::const_new("sound/bank/fighter_voice") {
        exec_sound_bank(archive, folder.path(), file, old_costume, costume, names)
    } else {
        None
    }
}

pub(crate) proof fn lemma_costume_search_path_resource(
    v: ArchiveView,
    file: FilePath,
    old_costume: Hash40,
    costume: Hash40,
    names: SlabView,
)
    ensures
        costume_search_path(v, file, old_costume, costume, names) matches Some((w, _))
            ==> w.resource == v.resource,
{
    reveal(costume_search_path);
    reveal(costume_folder);
    reveal(file_in_folder);
    reveal(adopt);
    reveal(sound_bank);
    reveal(append_child);
}

fn exec_costume_info(
    archive: &mut Archive,
    i: u32,
    old_costume: Hash40,
    costume: Hash40,
    names: &HashMemorySlab,
) -> (r: bool)
    requires
        old(archive).wf(),
        names.wf(),
        names@.sorted(),
    ensures
        final(archive).wf(),
        r == (costume_info(old(archive)@, i, old_costume, costume, names@) is Some),
        r ==> costume_info(old(archive)@, i, old_costume, costume, names@) == Some(final(archive)@),
{
    proof {
        reveal(costume_info);
    }
    let Some(mut info) = archive.read::<FileInfo>(i) else {
        return false;
    };
    let Some(file) = archive.read::<FilePath>(info.path) else {
        return false;
    };
    proof {
        lemma_costume_search_path_resource(archive@, file, old_costume, costume, names@);
    }
    let Some(s) = exec_costume_search_path(archive, &file, old_costume, costume, names) else {
        return false;
    };
    let Some(extension) = s.extension() else {
        return false;
    };
    let path = FilePath::from_parts(
        s.path(),
        s.parent().const_with("/"),
        s.name(),
        extension,
        file.path_and_entity.data(),
    );
    let found: Option<u32> = match archive.lookup_file_path(path.path()) {
        Some(p) => Some(p.index()),
        None => None,
    };
    let p: u32 = match found {
        Some(p) => p,
        None => match archive.try_insert_file_path(path) {
            Some(p) => p,
            None => {
                return false;
            },
        },
    };
    info.set_path(p);
    archive.write(i, info);
    true
}

/// Gives the files of a package paths for the new costume.
fn exec_costume_infos(
    archive: &mut Archive,
    start: u32,
    end: u32,
    old_costume: Hash40,
    costume: Hash40,
    names: &HashMemorySlab,
) -> (r: bool)
    requires
        old(archive).wf(),
        names.wf(),
        names@.sorted(),
    ensures
        final(archive).wf(),
        r == (costume_infos(old(archive)@, start, end as int, old_costume, costume, names@) is Some),
        r ==> costume_infos(old(archive)@, start, end as int, old_costume, costume, names@) == Some(
            final(archive)@,
        ),
{
    let ghost v = archive@;
    let mut i: u32 = start;
    while i < end
        invariant
            start <= i,
            i <= end || i == start,
            archive.wf(),
            names.wf(),
            names@.sorted(),
            v == old(archive)@,
            costume_infos(v, start, i as int, old_costume, costume, names@) == Some(archive@),
        decreases end - i,
    {
        if !exec_costume_info(archive, i, old_costume, costume, names) {
            proof {
                lemma_costume_infos_fails(
                    v,
                    start,
                    i + 1,
                    end as int,
                    old_costume,
                    costume,
                    names@,
                );
            }
            return false;
        }
        i += 1;
    }
    true
}

/// The group for a copy of a package, which must not link to one with the given name or parent.
fn exec_copied_group(
    archive: &Archive,
    source: &FilePackage,
    by_parent: bool,
) -> (r: Option<FileGroup>)
    requires
        archive.wf(),
    ensures
        r == copied_group(
            archive@,
            *source,
            if by_parent {
                |q: FilePackage| q.spec_parent() == source.spec_parent()
            } else {
                |q: FilePackage| q.spec_name() == source.spec_name()
            },
        ),
{
    let Some(data_group) = archive.read::<FileGroup>(source.path_and_group.data()) else {
        return None;
    };
    let redirection: u32 = data_group.redirection();
    let mut group = FileGroup::new_for_new_package();
    if source.flags().intersects(PACKAGE_HAS_SUB_PACKAGE) {
        if source.flags().intersects(PACKAGE_IS_SYM_LINK) {
            let Some(link) = archive.read::<FilePackage>(redirection) else {
                return None;
            };
            let clashes: bool = if by_parent {
                link.parent() == source.parent()
            } else {
                link.name() == source.name()
            };
            if clashes {
                return None;
            }
        }
        group.set_redirection(redirection);
    }
    Some(group)
}

fn exec_copied_package(
    source: &FilePackage,
    path: Hash40,
    name: Hash40,
    parent: Hash40,
    group: u32,
) -> (r: FilePackage)
    ensures
        r == copied_package(*source, path, name, parent, group),
{
    let mut package = FilePackage::new(path, name, parent, 0xFF_FFFF);
    package.set_flags(FilePackageFlags { bits: source.flags().bits & PACKAGE_ALL_BUT_REGIONAL });
    package.set_data_group(group);
    package
}

fn exec_runs_ok(archive: &Archive, package: &FilePackage) -> (r: bool)
    requires
        archive.wf(),
    ensures
        r == runs_ok(archive@, *package),
{
    archive.get_file_info_slice(package.info_start, package.info_count).is_some()
        && archive.get_file_package_child_slice(package.child_start, package.child_count).is_some()
}

/// Copies a child package for the new costume.
fn duplicate_fighter_costume_child_package(
    archive: &mut Archive,
    path: Hash40,
    new_parent: Hash40,
    old_costume: Hash40,
    costume: Hash40,
    names: &HashMemorySlab,
) -> (r: Option<FilePackageChild>)
    requires
        old(archive).wf(),
        names.wf(),
        names@.sorted(),
    ensures
        final(archive).wf(),
        match (
            r,
            duplicate_child(old(archive)@, path, new_parent, old_costume, costume, names@),
        ) {
            (Some(c), Some((w, d))) => c == d && w == final(archive)@,
            (None, None) => true,
            _ => false,
        },
{
    proof {
        reveal(duplicate_child);
    }
    let source = match archive.lookup_file_package(path) {
        Some(found) => found.get(),
        None => {
            return None;
        },
    };
    let Some(group) = exec_copied_group(archive, &source, true) else {
        return None;
    };
    if !exec_runs_ok(archive, &source) || source.child_count != 0 {
        return None;
    }
    let Some(g) = archive.try_push(group) else {
        return None;
    };
    let bare = exec_copied_package(
        &source,
        path_below(new_parent, source.name()),
        source.name(),
        new_parent,
        g,
    );
    let Some(package) = exec_copy_contents(archive, bare, g, source) else {
        return None;
    };
    if !exec_costume_infos(
        archive,
        package.info_start,
        package.info_start + package.info_count,
        old_costume,
        costume,
        names,
    ) {
        return None;
    }
    let Some(index) = archive.try_insert_file_package(package) else {
        return None;
    };
    Some(FilePackageChild::new(package.path(), index))
}

fn exec_replace_child(
    archive: &mut Archive,
    i: u32,
    new_parent: Hash40,
    old_costume: Hash40,
    costume: Hash40,
    names: &HashMemorySlab,
) -> (r: bool)
    requires
        old(archive).wf(),
        names.wf(),
        names@.sorted(),
    ensures
        final(archive).wf(),
        r == (replace_child(old(archive)@, i, new_parent, old_costume, costume, names@) is Some),
        r ==> replace_child(old(archive)@, i, new_parent, old_costume, costume, names@) == Some(
            final(archive)@,
        ),
{
    proof {
        reveal(replace_child);
        lemma_duplicate_child_counts(
            archive@,
            at::<FilePackageChild>(archive@, i).spec_path(),
            new_parent,
            old_costume,
            costume,
            names@,
        );
    }
    let Some(child) = archive.read::<FilePackageChild>(i) else {
        return false;
    };
    let Some(new_child) = duplicate_fighter_costume_child_package(
        archive,
        child.path(),
        new_parent,
        old_costume,
        costume,
        names,
    ) else {
        return false;
    };
    archive.write(i, new_child);
    true
}


proof fn lemma_copy_infos_children(v: ArchiveView, start: u32, end: int, group: u32)
    ensures
        copy_infos(v, start, end, group) matches Some(w) ==> w.resource.file_package_child
            == v.resource.file_package_child,
    decreases end - start,
{
    if end > start {
        lemma_copy_infos_children(v, start, end - 1, group);
        reveal(copy_info);
    }
}

proof fn lemma_costume_info_children(
    v: ArchiveView,
    i: u32,
    old_costume: Hash40,
    costume: Hash40,
    names: SlabView,
)
    ensures
        costume_info(v, i, old_costume, costume, names) matches Some(w)
            ==> w.resource.file_package_child == v.resource.file_package_child,
{
    reveal(costume_info);
    let file = at::<FilePath>(v, at::<FileInfo>(v, i).path);
    lemma_costume_search_path_resource(v, file, old_costume, costume, names);
}

proof fn lemma_costume_infos_children(
    v: ArchiveView,
    start: u32,
    end: int,
    old_costume: Hash40,
    costume: Hash40,
    names: SlabView,
)
    ensures
        costume_infos(v, start, end, old_costume, costume, names) matches Some(w)
            ==> w.resource.file_package_child == v.resource.file_package_child,
    decreases end - start,
{
    if end > start {
        lemma_costume_infos_children(v, start, end - 1, old_costume, costume, names);
        if let Some(w) = costume_infos(v, start, end - 1, old_costume, costume, names) {
            lemma_costume_info_children(w, (end - 1) as u32, old_costume, costume, names);
        }
    }
}

proof fn lemma_duplicate_child_counts(
    v: ArchiveView,
    path: Hash40,
    new_parent: Hash40,
    old_costume: Hash40,
    costume: Hash40,
    names: SlabView,
)
    ensures
        duplicate_child(v, path, new_parent, old_costume, costume, names) matches Some((w, _))
            ==> w.resource.file_package_child == v.resource.file_package_child,
{
    reveal(duplicate_child);
    if let Some((w, child)) = duplicate_child(v, path, new_parent, old_costume, costume, names) {
        let source = at::<FilePackage>(v, v.find_file_package(path)->0);
        let g = count::<FileGroup>(v) as u32;
        let bare = copied_package(
            source,
            below(new_parent, source.spec_name()),
            source.spec_name(),
            new_parent,
            g,
        );
        let group = copied_group(
            v,
            source,
            |q: FilePackage| q.spec_parent() == source.spec_parent(),
        )->0;
        let v1 = pushed(v, group);
        let (v2, package) = copy_contents(v1, bare, g, source)->0;
        assert(copy_children(v1, source.child_start, source.child_start + source.child_count) == Some(
            v1,
        ));
        lemma_copy_infos_children(
            v1,
            source.info_start,
            source.info_start + source.info_count,
            g,
        );
        lemma_costume_infos_children(
            v2,
            package.info_start,
            package.info_start + package.info_count,
            old_costume,
            costume,
            names,
        );
    }
}

/// Copies the package of a costume, and the packages below it, for a new costume. `names` has the
/// strings that hashes stand for. Returns the index of the copy, or `None` where the tables do not
/// allow for it.
pub fn duplicate_fighter_costume_package(
    archive: &mut Archive,
    _fighter: Hash40,
    path: Hash40,
    new_costume: Hash40,
    names: &HashMemorySlab,
) -> (r: Option<u32>)
    requires
        old(archive).wf(),
        names.wf(),
        names@.sorted(),
    ensures
        final(archive).wf(),
        match (r, duplicate_package(old(archive)@, path, new_costume, names@)) {
            (Some(i), Some(w)) => w == final(archive)@ && i == count::<FilePackage>(w) - 1,
            (None, None) => true,
            _ => false,
        },
{
    let ghost v = archive@;
    let source = match archive.lookup_file_package(path) {
        Some(found) => found.get(),
        None => {
            return None;
        },
    };
    let old_costume = source.name();
    let parent = source.parent();
    let Some(group) = exec_copied_group(archive, &source, false) else {
        return None;
    };
    if !exec_runs_ok(archive, &source) {
        return None;
    }
    let Some(g) = archive.try_push(group) else {
        return None;
    };
    let bare = exec_copied_package(&source, path_below(parent, new_costume), new_costume, parent, g);
    let Some(package) = exec_copy_contents(archive, bare, g, source) else {
        return None;
    };
    let ghost w = archive@;
    let new_parent = package.path();
    let start: u32 = package.child_start;
    let end: u32 = package.child_start + package.child_count;
    let mut i: u32 = start;
    while i < end
        invariant
            start <= i <= end,
            archive.wf(),
            names.wf(),
            names@.sorted(),
            v == old(archive)@,
            replace_children(w, start, i as int, new_parent, old_costume, new_costume, names@) == Some(
                archive@,
            ),
            replace_children(w, start, end as int, new_parent, old_costume, new_costume, names@) is None
                ==> duplicate_package(v, path, new_costume, names@) is None,
        decreases end - i,
    {
        if !exec_replace_child(archive, i, new_parent, old_costume, new_costume, names) {
            proof {
                lemma_replace_children_fails(
                    w,
                    start,
                    i + 1,
                    end as int,
                    new_parent,
                    old_costume,
                    new_costume,
                    names@,
                );
            }
            return None;
        }
        i += 1;
    }
    if !exec_costume_infos(
        archive,
        package.info_start,
        package.info_start + package.info_count,
        old_costume,
        new_costume,
        names,
    ) {
        return None;
    }
    archive.try_insert_file_package(package)
}

/// The entity of the path below `new_parent` that has the name of child `c`, given to the path of the
/// child.
#[verifier::opaque]
pub open spec fn retarget_child(v: ArchiveView, c: u32, new_parent: Hash40) -> Option<ArchiveView> {
    let child = at::<SearchPath>(v, c);
    match (
        v.find_file_path(below(new_parent, child.spec_name())),
        v.find_file_path(child.spec_path()),
    ) {
        (Some(t), Some(p)) => {
            let entity = at::<FilePath>(v, t).spec_entity();
            if holds::<FileEntity>(v, entity) {
                Some(with_path_entity(v, p, entity))
            } else {
                None
            }
        },
        _ => None,
    }
}

/// The children from `c` on, but for the last one. `None` if the list of children is broken or goes on
/// for more than `fuel` steps.
pub open spec fn retarget_children(v: ArchiveView, c: u32, new_parent: Hash40, fuel: nat) -> Option<
    ArchiveView,
>
    decreases fuel,
{
    let child = at::<SearchPath>(v, c);
    if child.spec_is_end() {
        Some(v)
    } else if fuel == 0 {
        None
    } else {
        match retarget_child(v, c, new_parent) {
            Some(w) => match w.follow(child.next_index()) {
                Some(next) => retarget_children(w, next, new_parent, (fuel - 1) as nat),
                None => None,
            },
            None => None,
        }
    }
}

/// Info `i` after it was pointed at the entity of its path and given the descriptor of the file that it
/// shared with, if its path is in folder `parent`.
#[verifier::opaque]
pub open spec fn retarget_info(
    v: ArchiveView,
    i: u32,
    parent: Hash40,
    prefs: LocalePreferences,
) -> Option<ArchiveView> {
    let info = at::<FileInfo>(v, i);
    let path = at::<FilePath>(v, info.path);
    let entity = path.spec_entity();
    let shared = at::<FileEntity>(v, info.entity).info;
    let source = at::<FileInfo>(v, shared).desc;
    let d = info.spec_desc_index(prefs);
    if !holds::<FileInfo>(v, i) || !holds::<FilePath>(v, info.path) {
        None
    } else if path.spec_parent() != parent {
        Some(v)
    } else if !holds::<FileEntity>(v, entity) || !holds::<FileEntity>(v, info.entity) || !holds::<
        FileInfo,
    >(v, shared) || !holds::<FileDescriptor>(v, source) || d >= count::<FileDescriptor>(v) {
        None
    } else {
        let v1 = with(
            v,
            d as u32,
            FileDescriptor {
                load_method: FileLoadMethod::Unowned(entity).raw(),
                ..at::<FileDescriptor>(v, source)
            },
        );
        Some(
            with(
                v1,
                i,
                FileInfo { entity, flags: info.flags.plus(INFO_SHARED_AND_UNKNOWN), ..info },
            ),
        )
    }
}

/// The infos `start..end`, one after the other.
pub open spec fn retarget_infos(
    v: ArchiveView,
    start: u32,
    end: int,
    parent: Hash40,
    prefs: LocalePreferences,
) -> Option<ArchiveView>
    decreases end - start,
{
    if end <= start {
        Some(v)
    } else {
        match retarget_infos(v, start, end - 1, parent, prefs) {
            Some(w) => retarget_info(w, (end - 1) as u32, parent, prefs),
            None => None,
        }
    }
}

/// The archive in which the files of folder `parent` share with those of the same name in folder
/// `new_parent`, as far as package `package` is concerned.
pub open spec fn retarget(
    v: ArchiveView,
    package: Hash40,
    parent: Hash40,
    new_parent: Hash40,
    prefs: LocalePreferences,
) -> Option<ArchiveView> {
    match v.find_search_folder(parent) {
        Some(f) => match v.follow(at::<SearchFolder>(v, f).first_child_index) {
            Some(c) => match retarget_children(v, c, new_parent, count::<SearchPath>(v)) {
                Some(w) => match w.find_file_package(package) {
                    Some(p) => {
                        let record = at::<FilePackage>(w, p);
                        if has_run::<FileInfo>(w, record.info_start, record.info_count) {
                            retarget_infos(
                                w,
                                record.info_start,
                                record.info_start + record.info_count,
                                spec_with(parent, encode_utf8("/"@)),
                                prefs,
                            )
                        } else {
                            None
                        }
                    },
                    None => None,
                },
                None => None,
            },
            None => None,
        },
        None => None,
    }
}

proof fn lemma_retarget_infos_fails(
    v: ArchiveView,
    start: u32,
    a: int,
    b: int,
    parent: Hash40,
    prefs: LocalePreferences,
)
    requires
        start <= a <= b,
        retarget_infos(v, start, a, parent, prefs) is None,
    ensures
        retarget_infos(v, start, b, parent, prefs) is None,
    decreases b,
{
    if a < b {
        lemma_retarget_infos_fails(v, start, a, b - 1, parent, prefs);
    }
}

fn exec_retarget_child(archive: &mut Archive, child: &SearchPath, c: u32, new_parent: Hash40) -> (r: bool)
    requires
        old(archive).wf(),
        holds::<SearchPath>(old(archive)@, c),
        *child == at::<SearchPath>(old(archive)@, c),
    ensures
        final(archive).wf(),
        r == (retarget_child(old(archive)@, c, new_parent) is Some),
        r ==> retarget_child(old(archive)@, c, new_parent) == Some(final(archive)@),
        final(archive)@.search == old(archive)@.search,
{
    proof {
        reveal(retarget_child);
    }
    let target = match archive.lookup_file_path(path_below(new_parent, child.name())) {
        Some(found) => found.get(),
        None => {
            return false;
        },
    };
    let entity: u32 = target.path_and_entity.data();
    if archive.read::<FileEntity>(entity).is_none() {
        return false;
    }
    let p: u32 = match archive.lookup_file_path(child.path()) {
        Some(found) => found.index(),
        None => {
            return false;
        },
    };
    let Some(mut path) = archive.read::<FilePath>(p) else {
        return false;
    };
    path.path_and_entity.set_data(entity);
    archive.write(p, path);
    true
}

fn exec_retarget_info(archive: &mut Archive, i: u32, parent: Hash40, prefs: LocalePreferences) -> (r: bool)
    requires
        old(archive).wf(),
    ensures
        final(archive).wf(),
        r == (retarget_info(old(archive)@, i, parent, prefs) is Some),
        r ==> retarget_info(old(archive)@, i, parent, prefs) == Some(final(archive)@),
{
    proof {
        reveal(retarget_info);
        law_stored(archive@, 0, at::<FileDescriptor>(archive@, 0));
    }
    let Some(mut info) = archive.read::<FileInfo>(i) else {
        return false;
    };
    let Some(path) = archive.read::<FilePath>(info.path) else {
        return false;
    };
    if path.parent() != parent {
        return true;
    }
    let entity: u32 = path.path_and_entity.data();
    if archive.read::<FileEntity>(entity).is_none() {
        return false;
    }
    let Some(shared) = archive.read::<FileEntity>(info.entity) else {
        return false;
    };
    let Some(source) = archive.read::<FileInfo>(shared.info) else {
        return false;
    };
    let Some(mut desc) = archive.read::<FileDescriptor>(source.desc) else {
        return false;
    };
    let Some(d) = info.desc_index(prefs) else {
        return false;
    };
    if archive.read::<FileDescriptor>(d).is_none() {
        return false;
    }
    desc.set_load_method(FileLoadMethod::Unowned(entity));
    archive.write(d, desc);
    info.set_entity(entity);
    let mut flags = info.flags();
    flags.set(INFO_SHARED_AND_UNKNOWN, true);
    info.set_flags(flags);
    archive.write(i, info);
    true
}

/// Lets the files of one folder share with those of the same name in another.
pub fn retarget_files<P: IntoHash, Q: IntoHash, N: IntoHash>(
    archive: &mut Archive,
    package: P,
    parent: Q,
    new_parent: N,
    prefs: LocalePreferences,
) -> (r: bool)
    requires
        old(archive).wf(),
    ensures
        final(archive).wf(),
        r == (retarget(
            old(archive)@,
            package.hash_of(),
            parent.hash_of(),
            new_parent.hash_of(),
            prefs,
        ) is Some),
        r ==> retarget(
            old(archive)@,
            package.hash_of(),
            parent.hash_of(),
            new_parent.hash_of(),
            prefs,
        ) == Some(final(archive)@),
{
    retarget_hashes(archive, package.into_hash(), parent.into_hash(), new_parent.into_hash(), prefs)
}

fn retarget_hashes(
    archive: &mut Archive,
    package: Hash40,
    parent: Hash40,
    new_parent: Hash40,
    prefs: LocalePreferences,
) -> (r: bool)
    requires
        old(archive).wf(),
    ensures
        final(archive).wf(),
        r == (retarget(old(archive)@, package, parent, new_parent, prefs) is Some),
        r ==> retarget(old(archive)@, package, parent, new_parent, prefs) == Some(final(archive)@),
{
    let ghost v = archive@;
    let ghost whole = retarget(v, package, parent, new_parent, prefs);
    let folder = match archive.lookup_search_folder(parent) {
        Some(found) => found.get(),
        None => {
            return false;
        },
    };
    let Some(first) = archive.follow(folder.first_child_index) else {
        return false;
    };
    let mut c: u32 = first;
    let mut fuel: usize = archive.num::<SearchPath>();
    let ghost all = retarget_children(v, first, new_parent, fuel as nat);
    loop
        invariant_except_break
            retarget_children(archive@, c, new_parent, fuel as nat) == all,
        invariant
            archive.wf(),
            holds::<SearchPath>(archive@, c),
            v == old(archive)@,
            all is None ==> whole is None,
            whole == retarget(v, package, parent, new_parent, prefs),
        ensures
            all == Some(archive@),
        decreases fuel,
    {
        let Some(child) = archive.read::<SearchPath>(c) else {
            return false;
        };
        if child.is_end() {
            break;
        }
        if fuel == 0 {
            return false;
        }
        if !exec_retarget_child(archive, &child, c, new_parent) {
            return false;
        }
        let Some(next) = archive.follow(child.path_and_next_index.data()) else {
            return false;
        };
        c = next;
        fuel -= 1;
    }
    let ghost w = archive@;
    let record = match archive.lookup_file_package(package) {
        Some(found) => found.get(),
        None => {
            return false;
        },
    };
    let (start, end): (u32, u32) = match archive.get_file_info_slice(
        record.info_start,
        record.info_count,
    ) {
        Some(slice) => slice.range(),
        None => {
            return false;
        },
    };
    let slashed = parent.const_with("/");
    let mut i: u32 = start;
    while i < end
        invariant
            start <= i <= end,
            archive.wf(),
            v == old(archive)@,
            retarget_infos(w, start, i as int, slashed, prefs) == Some(archive@),
            whole == retarget_infos(w, start, end as int, slashed, prefs),
            whole == retarget(v, package, parent, new_parent, prefs),
        decreases end - i,
    {
        if !exec_retarget_info(archive, i, slashed, prefs) {
            proof {
                lemma_retarget_infos_fails(w, start, i + 1, end as int, slashed, prefs);
            }
            return false;
        }
        i += 1;
    }
    true
}

} // verus!
