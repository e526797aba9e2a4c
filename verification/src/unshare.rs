//! Making way for files that are replaced.
//!
//! A file that shares its data with another one is given data of its own. A file that others share
//! with is copied, and the others are pointed at the copy. Other files only change their size.

use crate::access::{at, count, holds, pushed, with};
use crate::archive::{Archive, ArchiveView};
use crate::data::{
    FileData, FileDescriptor, FileEntity, FileGroup, FileInfo, FileLoadMethod, FilePackage, FilePath,
    INFO_IS_RESHARED, INFO_IS_SHARED, INFO_IS_UNKNOWN_FLAG, INFO_LOCALIZED_OR_REGIONAL,
};
use crate::hash40::Hash40;
use crate::locale::LocalePreferences;
use crate::navigate::with_path_entity;
use crate::reshare::{room, set_load_method, with_load_method};
use crate::share::{ShareCaches, ShareView};
use vstd::prelude::*;

verus! {

/// The archive in which group `g` counts as having data. A group without any is not loaded.
pub open spec fn woken(v: ArchiveView, g: u32) -> ArchiveView {
    let group = at::<FileGroup>(v, g);
    if group.compressed_size == 0 {
        with(v, g, FileGroup { compressed_size: 0x10, ..group })
    } else {
        v
    }
}

/// Info `i` after it was pointed at `entity`, as one of several that share it.
#[verifier::opaque]
pub open spec fn follow_entity(v: ArchiveView, i: u32, entity: u32, prefs: LocalePreferences) -> Option<
    ArchiveView,
> {
    let info = at::<FileInfo>(v, i);
    if holds::<FileInfo>(v, i) {
        with_load_method(
            with(
                v,
                i,
                FileInfo {
                    entity,
                    flags: info.flags.plus(INFO_IS_SHARED).plus(INFO_IS_UNKNOWN_FLAG),
                    ..info
                },
            ),
            i,
            FileLoadMethod::Unowned(entity),
            prefs,
        )
    } else {
        None
    }
}

/// The first `n` infos, one after the other.
pub open spec fn follow_all(
    v: ArchiveView,
    infos: Seq<(u32, u32)>,
    n: int,
    entity: u32,
    prefs: LocalePreferences,
) -> Option<ArchiveView>
    decreases n,
{
    if n <= 0 {
        Some(v)
    } else {
        match follow_all(v, infos, n - 1, entity, prefs) {
            Some(w) => follow_entity(w, infos[n - 1].1, entity, prefs),
            None => None,
        }
    }
}

/// Are the records there that giving data of its own to a path with these infos needs?
pub open spec fn can_own(v: ArchiveView, infos: Seq<(u32, u32)>) -> bool {
    let (p, first) = infos[0];
    &&& holds::<FilePackage>(v, p)
    &&& holds::<FileGroup>(v, at::<FilePackage>(v, p).spec_data_group())
    &&& holds::<FileInfo>(v, first)
    &&& holds::<FilePath>(v, at::<FileInfo>(v, first).path)
    &&& room::<FileData>(v)
    &&& room::<FileEntity>(v)
    &&& room::<FileDescriptor>(v)
}

/// The archive after the first of these infos was given an entity and data of the given size. The
/// data belongs to the package of the info.
#[verifier::opaque]
pub open spec fn owned(v: ArchiveView, infos: Seq<(u32, u32)>, size: u32) -> ArchiveView {
    let (p, first) = infos[0];
    let group = at::<FilePackage>(v, p).spec_data_group();
    let data = count::<FileData>(v) as u32;
    let entity = count::<FileEntity>(v) as u32;
    let desc = count::<FileDescriptor>(v) as u32;
    let info = at::<FileInfo>(v, first);
    let v1 = pushed(v, FileData::unshared(size, 0));
    let v2 = pushed(v1, FileEntity { package_or_group: p, info: first });
    let v3 = pushed(
        v2,
        FileDescriptor { group, file_data: data, load_method: FileLoadMethod::Owned(0).raw() },
    );
    let v4 = woken(v3, group);
    let v5 = with(
        v4,
        first,
        FileInfo {
            entity,
            desc,
            flags: info.flags.minus(INFO_IS_SHARED).minus(INFO_IS_UNKNOWN_FLAG),
            ..info
        },
    );
    with_path_entity(v5, info.path, entity)
}

/// The archive after a path was given data of its own. `infos` are all infos of the path, with their
/// packages. The others go on sharing with the first one. Localized and regional files are left alone.
pub open spec fn unshare(
    v: ArchiveView,
    infos: Seq<(u32, u32)>,
    size: u32,
    prefs: LocalePreferences,
) -> Option<ArchiveView> {
    let first = infos[0].1;
    if !holds::<FileInfo>(v, first) {
        None
    } else if at::<FileInfo>(v, first).flags.has(INFO_LOCALIZED_OR_REGIONAL) {
        Some(v)
    } else if !can_own(v, infos) {
        None
    } else {
        follow_all(
            owned(v, infos, size),
            infos.skip(1),
            infos.len() - 1,
            count::<FileEntity>(v) as u32,
            prefs,
        )
    }
}

/// Info `i` after it was pointed at `entity`, if it shared with `from` until now.
#[verifier::opaque]
pub open spec fn redirect(
    v: ArchiveView,
    i: u32,
    from: u32,
    entity: u32,
    prefs: LocalePreferences,
) -> Option<ArchiveView> {
    let info = at::<FileInfo>(v, i);
    if !holds::<FileInfo>(v, i) || !holds::<FileEntity>(v, info.entity) {
        None
    } else if info.entity != from {
        Some(v)
    } else if !holds::<FilePath>(v, info.path) {
        None
    } else {
        with_load_method(
            with(with_path_entity(v, info.path, entity), i, FileInfo { entity, ..info }),
            i,
            FileLoadMethod::Unowned(entity),
            prefs,
        )
    }
}

/// The first `n` infos, one after the other.
pub open spec fn redirect_all(
    v: ArchiveView,
    infos: Seq<u32>,
    n: int,
    from: u32,
    entity: u32,
    prefs: LocalePreferences,
) -> Option<ArchiveView>
    decreases n,
{
    if n <= 0 {
        Some(v)
    } else {
        match redirect_all(v, infos, n - 1, from, entity, prefs) {
            Some(w) => redirect(w, infos[n - 1], from, entity, prefs),
            None => None,
        }
    }
}

/// Are the records there that copying the file of info `i` needs?
pub open spec fn can_copy(v: ArchiveView, i: u32) -> bool {
    let info = at::<FileInfo>(v, i);
    &&& holds::<FileInfo>(v, i)
    &&& holds::<FileEntity>(v, info.entity)
    &&& at::<FileEntity>(v, info.entity).info == i
    &&& holds::<FileDescriptor>(v, info.desc)
    &&& holds::<FileData>(v, at::<FileDescriptor>(v, info.desc).file_data)
    &&& !info.flags.has(INFO_LOCALIZED_OR_REGIONAL)
    &&& !info.flags.has(INFO_IS_RESHARED)
    &&& room::<FileData>(v)
    &&& room::<FileDescriptor>(v)
    &&& room::<FileInfo>(v)
    &&& room::<FileEntity>(v)
}

/// The archive after the file of info `i` was copied: its data, descriptor, info and entity.
#[verifier::opaque]
pub open spec fn copied(v: ArchiveView, i: u32) -> ArchiveView {
    let info = at::<FileInfo>(v, i);
    let desc = at::<FileDescriptor>(v, info.desc);
    let group = at::<FileEntity>(v, info.entity).package_or_group;
    let v1 = pushed(v, at::<FileData>(v, desc.file_data));
    let v2 = pushed(v1, FileDescriptor { file_data: count::<FileData>(v) as u32, ..desc });
    let v3 = pushed(
        v2,
        FileInfo {
            desc: count::<FileDescriptor>(v) as u32,
            entity: count::<FileEntity>(v) as u32,
            flags: info.flags.plus(INFO_IS_RESHARED),
            ..info
        },
    );
    pushed(v3, FileEntity { package_or_group: group, info: count::<FileInfo>(v) as u32 })
}

/// The archive after those that share with info `i` were pointed at a copy of its file.
pub open spec fn spare(v: ArchiveView, i: u32, dependents: Seq<u32>, prefs: LocalePreferences) -> Option<
    ArchiveView,
> {
    if can_copy(v, i) {
        redirect_all(
            copied(v, i),
            dependents,
            dependents.len() as int,
            at::<FileInfo>(v, i).entity,
            count::<FileEntity>(v) as u32,
            prefs,
        )
    } else {
        None
    }
}

/// The archive after the file of info `i` got another size.
#[verifier::opaque]
pub open spec fn resized(v: ArchiveView, i: u32, size: u32, prefs: LocalePreferences) -> Option<
    ArchiveView,
> {
    let d = at::<FileInfo>(v, i).spec_desc_index(prefs);
    let f = at::<FileDescriptor>(v, d as u32).file_data;
    if holds::<FileInfo>(v, i) && d < count::<FileDescriptor>(v) && holds::<FileData>(v, f) {
        Some(with(v, f, FileData { decompressed_size: size, ..at::<FileData>(v, f) }))
    } else {
        None
    }
}

/// An archive, and what is known of the sharing in it.
pub struct Patching {
    pub archive: ArchiveView,
    pub shares: ShareView,
}

/// The archive after the file with this path is to be loaded from elsewhere. Paths that the archive
/// does not have, and localized and regional files, are left alone.
pub open spec fn replace(s: Patching, path: Hash40, size: u32, prefs: LocalePreferences) -> Option<
    Patching,
> {
    let v = s.archive;
    match v.find_file_path(path) {
        None => Some(s),
        Some(p) => {
            let file_path = at::<FilePath>(v, p);
            let k = file_path.spec_path().0;
            if s.shares.unshare.contains_key(k) && s.shares.unshare[k].len() > 0 {
                match unshare(v, s.shares.unshare[k], size, prefs) {
                    Some(w) => Some(Patching { archive: w, ..s }),
                    None => None,
                }
            } else {
                let e = file_path.spec_entity();
                let i = at::<FileEntity>(v, e).info;
                if !holds::<FileEntity>(v, e) || !holds::<FileInfo>(v, i) {
                    None
                } else if at::<FileInfo>(v, i).flags.has(INFO_LOCALIZED_OR_REGIONAL) {
                    Some(s)
                } else {
                    replace_owner(s, i, size, prefs)
                }
            }
        },
    }
}

/// The archive after the file whose data is loaded by info `i` is to be loaded from elsewhere.
pub open spec fn replace_owner(s: Patching, i: u32, size: u32, prefs: LocalePreferences) -> Option<
    Patching,
> {
    let v = s.archive;
    let spared = if s.shares.reverse.contains_key(i) {
        spare(v, i, s.shares.reverse[i], prefs)
    } else {
        Some(v)
    };
    match spared {
        Some(w) => match resized(w, i, size, prefs) {
            Some(x) => Some(
                Patching {
                    archive: x,
                    shares: ShareView { reverse: s.shares.reverse.remove(i), ..s.shares },
                },
            ),
            None => None,
        },
        None => None,
    }
}

/// The first `n` files, one after the other.
pub open spec fn replace_all(s: Patching, files: Seq<(Hash40, u32)>, n: int, prefs: LocalePreferences) -> Option<
    Patching,
>
    decreases n,
{
    if n <= 0 {
        Some(s)
    } else {
        match replace_all(s, files, n - 1, prefs) {
            Some(t) => replace(t, files[n - 1].0, files[n - 1].1, prefs),
            None => None,
        }
    }
}

fn exec_follow_entity(archive: &mut Archive, i: u32, entity: u32, prefs: LocalePreferences) -> (r: bool)
    requires
        old(archive).wf(),
    ensures
        final(archive).wf(),
        r == (follow_entity(old(archive)@, i, entity, prefs) is Some),
        r ==> follow_entity(old(archive)@, i, entity, prefs) == Some(final(archive)@),
{
    proof {
        reveal(follow_entity);
    }
    let Some(mut info) = archive.read::<FileInfo>(i) else {
        return false;
    };
    info.set_entity(entity);
    let mut flags = info.flags();
    flags.set(INFO_IS_SHARED, true);
    flags.set(INFO_IS_UNKNOWN_FLAG, true);
    info.set_flags(flags);
    archive.write(i, info);
    set_load_method(archive, i, FileLoadMethod::Unowned(entity), prefs)
}

fn exec_owned(archive: &mut Archive, infos: &Vec<(u32, u32)>, size: u32) -> (r: bool)
    requires
        old(archive).wf(),
        infos@.len() > 0,
        !at::<FileInfo>(old(archive)@, infos@[0].1).flags.has(INFO_LOCALIZED_OR_REGIONAL),
    ensures
        final(archive).wf(),
        r == can_own(old(archive)@, infos@),
        r ==> final(archive)@ == owned(old(archive)@, infos@, size),
{
    proof {
        reveal(owned);
    }
    let (p, first): (u32, u32) = infos[0];
    let Some(package) = archive.read::<FilePackage>(p) else {
        return false;
    };
    let group: u32 = package.path_and_group.data();
    let Some(mut file_group) = archive.read::<FileGroup>(group) else {
        return false;
    };
    let Some(mut info) = archive.read::<FileInfo>(first) else {
        return false;
    };
    let Some(mut path) = archive.read::<FilePath>(info.path) else {
        return false;
    };
    let Some(data) = archive.try_push(FileData::new_for_unsharing(size, 0)) else {
        return false;
    };
    let Some(entity) = archive.try_push(FileEntity::new(p, first)) else {
        return false;
    };
    let Some(desc) = archive.try_push(FileDescriptor::new(group, data, FileLoadMethod::Owned(0))) else {
        return false;
    };
    if file_group.compressed_size() == 0 {
        file_group.set_compressed_size(0x10);
        archive.write(group, file_group);
    }
    let path_index: u32 = info.path;
    let mut flags = info.flags();
    flags.set(INFO_IS_SHARED, false);
    flags.set(INFO_IS_UNKNOWN_FLAG, false);
    info.set_entity(entity);
    info.set_desc(desc);
    info.set_flags(flags);
    archive.write(first, info);
    path.path_and_entity.set_data(entity);
    archive.write(path_index, path);
    true
}

/// Gives a path data of its own, in all packages that it is in.
fn unshare_path(
    archive: &mut Archive,
    infos: &Vec<(u32, u32)>,
    size: u32,
    prefs: LocalePreferences,
) -> (r: bool)
    requires
        old(archive).wf(),
        infos@.len() > 0,
    ensures
        final(archive).wf(),
        r == (unshare(old(archive)@, infos@, size, prefs) is Some),
        r ==> unshare(old(archive)@, infos@, size, prefs) == Some(final(archive)@),
{
    let Some(first) = archive.read::<FileInfo>(infos[0].1) else {
        return false;
    };
    if first.flags().intersects(INFO_LOCALIZED_OR_REGIONAL) {
        return true;
    }
    let entity: usize = archive.num::<FileEntity>();
    if entity >= 0xFFFF_FFFF {
        return false;
    }
    if !exec_owned(archive, infos, size) {
        return false;
    }
    let ghost v = archive@;
    let ghost rest = infos@.skip(1);
    let n: usize = infos.len();
    let mut j: usize = 1;
    while j < n
        invariant
            n == infos@.len(),
            1 <= j <= n,
            rest == infos@.skip(1),
            archive.wf(),
            entity < u32::MAX,
            follow_all(v, rest, j - 1, entity as u32, prefs) == Some(archive@),
            unshare(old(archive)@, infos@, size, prefs) == follow_all(
                v,
                rest,
                n - 1,
                entity as u32,
                prefs,
            ),
        decreases n - j,
    {
        proof {
            assert(rest[j - 1] == infos@[j as int]);
        }
        if !exec_follow_entity(archive, infos[j].1, entity as u32, prefs) {
            proof {
                lemma_follow_all_fails(v, rest, j as int, n - 1, entity as u32, prefs);
            }
            return false;
        }
        j += 1;
    }
    true
}

proof fn lemma_follow_all_fails(
    v: ArchiveView,
    infos: Seq<(u32, u32)>,
    a: int,
    b: int,
    entity: u32,
    prefs: LocalePreferences,
)
    requires
        0 <= a <= b,
        follow_all(v, infos, a, entity, prefs) is None,
    ensures
        follow_all(v, infos, b, entity, prefs) is None,
    decreases b,
{
    if a < b {
        lemma_follow_all_fails(v, infos, a, b - 1, entity, prefs);
    }
}

proof fn lemma_redirect_all_fails(
    v: ArchiveView,
    infos: Seq<u32>,
    a: int,
    b: int,
    from: u32,
    entity: u32,
    prefs: LocalePreferences,
)
    requires
        0 <= a <= b,
        redirect_all(v, infos, a, from, entity, prefs) is None,
    ensures
        redirect_all(v, infos, b, from, entity, prefs) is None,
    decreases b,
{
    if a < b {
        lemma_redirect_all_fails(v, infos, a, b - 1, from, entity, prefs);
    }
}

proof fn lemma_replace_all_fails(
    s: Patching,
    files: Seq<(Hash40, u32)>,
    a: int,
    b: int,
    prefs: LocalePreferences,
)
    requires
        0 <= a <= b,
        replace_all(s, files, a, prefs) is None,
    ensures
        replace_all(s, files, b, prefs) is None,
    decreases b,
{
    if a < b {
        lemma_replace_all_fails(s, files, a, b - 1, prefs);
    }
}

fn exec_redirect(archive: &mut Archive, i: u32, from: u32, entity: u32, prefs: LocalePreferences) -> (r:
    bool)
    requires
        old(archive).wf(),
    ensures
        final(archive).wf(),
        r == (redirect(old(archive)@, i, from, entity, prefs) is Some),
        r ==> redirect(old(archive)@, i, from, entity, prefs) == Some(final(archive)@),
{
    proof {
        reveal(redirect);
    }
    let Some(mut info) = archive.read::<FileInfo>(i) else {
        return false;
    };
    let Some(_entity) = archive.read::<FileEntity>(info.entity) else {
        return false;
    };
    if info.entity != from {
        return true;
    }
    let Some(mut path) = archive.read::<FilePath>(info.path) else {
        return false;
    };
    path.path_and_entity.set_data(entity);
    archive.write(info.path, path);
    info.set_entity(entity);
    archive.write(i, info);
    set_load_method(archive, i, FileLoadMethod::Unowned(entity), prefs)
}

fn exec_copied(archive: &mut Archive, i: u32) -> (r: bool)
    requires
        old(archive).wf(),
    ensures
        final(archive).wf(),
        r == can_copy(old(archive)@, i),
        r ==> final(archive)@ == copied(old(archive)@, i),
{
    proof {
        reveal(copied);
    }
    let Some(mut info) = archive.read::<FileInfo>(i) else {
        return false;
    };
    let Some(entity) = archive.read::<FileEntity>(info.entity) else {
        return false;
    };
    if entity.info != i {
        return false;
    }
    let Some(mut desc) = archive.read::<FileDescriptor>(info.desc) else {
        return false;
    };
    let Some(data) = archive.read::<FileData>(desc.file_data) else {
        return false;
    };
    if info.flags().intersects(INFO_LOCALIZED_OR_REGIONAL) || info.flags().intersects(
        INFO_IS_RESHARED,
    ) {
        return false;
    }
    let entities: usize = archive.num::<FileEntity>();
    if entities >= 0xFFFF_FFFF {
        return false;
    }
    let Some(new_data) = archive.try_push(data) else {
        return false;
    };
    desc.set_data(new_data);
    let Some(new_desc) = archive.try_push(desc) else {
        return false;
    };
    info.set_desc(new_desc);
    info.set_entity(entities as u32);
    info.set_as_reshared();
    let Some(new_info) = archive.try_push(info) else {
        return false;
    };
    let _new_entity = archive.push(FileEntity::new(entity.package_or_group(), new_info));
    true
}

/// Copies the file of info `i` and points those that share with it at the copy.
fn spare_dependents(archive: &mut Archive, i: u32, dependents: &Vec<u32>, prefs: LocalePreferences) -> (r:
    bool)
    requires
        old(archive).wf(),
    ensures
        final(archive).wf(),
        r == (spare(old(archive)@, i, dependents@, prefs) is Some),
        r ==> spare(old(archive)@, i, dependents@, prefs) == Some(final(archive)@),
{
    let Some(info) = archive.read::<FileInfo>(i) else {
        return false;
    };
    let from: u32 = info.entity;
    let entity: usize = archive.num::<FileEntity>();
    if entity >= 0xFFFF_FFFF {
        return false;
    }
    if !exec_copied(archive, i) {
        return false;
    }
    let ghost v = archive@;
    let n: usize = dependents.len();
    let mut j: usize = 0;
    while j < n
        invariant
            n == dependents@.len(),
            j <= n,
            archive.wf(),
            entity < u32::MAX,
            redirect_all(v, dependents@, j as int, from, entity as u32, prefs) == Some(archive@),
            spare(old(archive)@, i, dependents@, prefs) == redirect_all(
                v,
                dependents@,
                n as int,
                from,
                entity as u32,
                prefs,
            ),
        decreases n - j,
    {
        if !exec_redirect(archive, dependents[j], from, entity as u32, prefs) {
            proof {
                lemma_redirect_all_fails(
                    v,
                    dependents@,
                    j + 1,
                    n as int,
                    from,
                    entity as u32,
                    prefs,
                );
            }
            return false;
        }
        j += 1;
    }
    true
}

fn exec_resized(archive: &mut Archive, i: u32, size: u32, prefs: LocalePreferences) -> (r: bool)
    requires
        old(archive).wf(),
    ensures
        final(archive).wf(),
        r == (resized(old(archive)@, i, size, prefs) is Some),
        r ==> resized(old(archive)@, i, size, prefs) == Some(final(archive)@),
{
    proof {
        reveal(resized);
    }
    let Some(info) = archive.read::<FileInfo>(i) else {
        return false;
    };
    let Some(d) = info.desc_index(prefs) else {
        return false;
    };
    let Some(desc) = archive.read::<FileDescriptor>(d) else {
        return false;
    };
    let Some(mut data) = archive.read::<FileData>(desc.file_data) else {
        return false;
    };
    data.patch(size);
    archive.write(desc.file_data, data);
    true
}

/// Makes way for a replacement of the file with this path.
pub fn replace_file(
    archive: &mut Archive,
    shares: &mut ShareCaches,
    path: Hash40,
    size: u32,
    prefs: LocalePreferences,
) -> (r: bool)
    requires
        old(archive).wf(),
    ensures
        final(archive).wf(),
        r == (replace(
            Patching { archive: old(archive)@, shares: old(shares)@ },
            path,
            size,
            prefs,
        ) is Some),
        r ==> replace(
            Patching { archive: old(archive)@, shares: old(shares)@ },
            path,
            size,
            prefs,
        ) == Some(Patching { archive: final(archive)@, shares: final(shares)@ }),
{
    let p: u32 = match archive.lookup_file_path(path) {
        Some(found) => found.index(),
        None => {
            return true;
        },
    };
    let Some(file_path) = archive.read::<FilePath>(p) else {
        return false;
    };
    if let Some(infos) = shares.infos_of(file_path.path().raw()) {
        if infos.len() > 0 {
            return unshare_path(archive, infos, size, prefs);
        }
    }
    let Some(entity) = archive.read::<FileEntity>(file_path.path_and_entity.data()) else {
        return false;
    };
    let i: u32 = entity.info;
    let Some(info) = archive.read::<FileInfo>(i) else {
        return false;
    };
    if info.flags().intersects(INFO_LOCALIZED_OR_REGIONAL) {
        return true;
    }
    match shares.take_dependents(i) {
        Some(dependents) => {
            if !spare_dependents(archive, i, &dependents, prefs) {
                return false;
            }
        },
        None => {},
    }
    proof {
        assert(!old(shares)@.reverse.contains_key(i) ==> old(shares)@.reverse.remove(i)
            =~= old(shares)@.reverse);
    }
    exec_resized(archive, i, size, prefs)
}

/// Makes way for replacements of all these files.
pub fn replace_files(
    archive: &mut Archive,
    shares: &mut ShareCaches,
    files: &[(Hash40, u32)],
    prefs: LocalePreferences,
) -> (r: bool)
    requires
        old(archive).wf(),
    ensures
        final(archive).wf(),
        r == (replace_all(
            Patching { archive: old(archive)@, shares: old(shares)@ },
            files@,
            files@.len() as int,
            prefs,
        ) is Some),
        r ==> replace_all(
            Patching { archive: old(archive)@, shares: old(shares)@ },
            files@,
            files@.len() as int,
            prefs,
        ) == Some(Patching { archive: final(archive)@, shares: final(shares)@ }),
{
    let ghost s = Patching { archive: old(archive)@, shares: old(shares)@ };
    let n: usize = files.len();
    let mut j: usize = 0;
    while j < n
        invariant
            s == (Patching { archive: old(archive)@, shares: old(shares)@ }),
            n == files@.len(),
            j <= n,
            archive.wf(),
            replace_all(s, files@, j as int, prefs) == Some(
                Patching { archive: archive@, shares: shares@ },
            ),
        decreases n - j,
    {
        if !replace_file(archive, shares, files[j].0, files[j].1, prefs) {
            proof {
                lemma_replace_all_fails(s, files@, j + 1, n as int, prefs);
            }
            return false;
        }
        j += 1;
    }
    true
}

} // verus!
