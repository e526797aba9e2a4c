//! What the files of a copied package lead to.

use crate::access::{at, count, holds, law_stored, pushed, with};
use crate::archive::ArchiveView;
use crate::data::{
    law_hash_with_data, law_load_method, law_non_localized_desc, FileData, FileDescriptor, FileEntity,
    FileGroup, FileInfo, FileInfoFlags, FileLoadMethod, FilePackage, FilePackageChild, FilePath,
    HashWithData, INFO_SHARED_AND_UNKNOWN,
};
use crate::hash40::{law_hash40_wf, spec_with, Hash40};
use crate::hash_interner::SlabView;
use crate::locale::LocalePreferences;
use crate::lookup::law_insert_file_package;
use crate::package_laws::{
    lemma_copy_children_grows, lemma_copy_info_grows, lemma_costume_info_grows, lemma_insert_package,
    lemma_pushed_group, lemma_with_child,
};
use crate::packages::{
    below, copied_group, copied_package, copy_children, copy_contents, copy_info, copy_infos, costume_info,
    costume_infos, duplicate_child, duplicate_package, lemma_costume_search_path_resource, replace_child,
    replace_children, runs_ok,
};
use crate::patch_laws::{grows, law_grows_reflexive, law_grows_transitive};
use vstd::prelude::*;
use vstd::utf8::encode_utf8;

verus! {

/// Index of the data that entity `e` stands for: that of the descriptor in force of the info that the
/// entity is loaded by. `None` if a record on the way is not there.
pub open spec fn entity_data(v: ArchiveView, e: u32, prefs: LocalePreferences) -> Option<u32> {
    let i = at::<FileEntity>(v, e).info;
    let d = at::<FileInfo>(v, i).spec_desc_index(prefs);
    let f = at::<FileDescriptor>(v, d as u32).file_data;
    if holds::<FileEntity>(v, e) && holds::<FileInfo>(v, i) && d < count::<FileDescriptor>(v) && holds::<
        FileData,
    >(v, f) {
        Some(f)
    } else {
        None
    }
}

/// Info `b` of `w` is a copy of info `a`, made after `v`, and shares its data. A file that packages skip is
/// still skipped. Any other one is loaded from the entity of `a`. The copy has the data that `a` has, and
/// one descriptor for all regions and locales.
pub open spec fn is_copy(v: ArchiveView, w: ArchiveView, a: FileInfo, b: FileInfo, group: u32) -> bool {
    let from = at::<FileDescriptor>(w, a.desc);
    let to = at::<FileDescriptor>(w, b.desc);
    &&& b.entity == a.entity
    &&& holds::<FileEntity>(w, a.entity)
    &&& holds::<FileDescriptor>(w, a.desc)
    &&& holds::<FileData>(w, from.file_data)
    &&& holds::<FileDescriptor>(w, b.desc)
    &&& holds::<FileData>(w, to.file_data)
    &&& at::<FileData>(w, to.file_data) == at::<FileData>(w, from.file_data)
    &&& b.desc >= count::<FileDescriptor>(v)
    &&& to.file_data >= count::<FileData>(v)
    &&& to.group == group
    &&& from.load_method / 0x100_0000 == 3 ==> to.load_method == from.load_method
    &&& from.load_method / 0x100_0000 != 3 ==> to.load_method == FileLoadMethod::Unowned(a.entity).raw()
    &&& b.flags.bits & 0x3_0000 == 0
    &&& b.flags.bits & 0x30_0000 == 0x30_0000
    &&& b.flags.bits & 0xC000_1010 == a.flags.bits & 0xC000_1010
}

/// Everything of `v` is in `w` at its index, but that infos from `bound` on may have other paths, and that
/// children of packages may have changed.
pub open spec fn appended(v: ArchiveView, w: ArchiveView, bound: int) -> bool {
    &&& grows(v, w)
    &&& w.resource.file_entity == v.resource.file_entity
    &&& forall|k: u32| #[trigger]
        holds::<FileData>(v, k) ==> at::<FileData>(w, k) == at::<FileData>(v, k)
    &&& forall|k: u32| #[trigger]
        holds::<FileDescriptor>(v, k) ==> at::<FileDescriptor>(w, k) == at::<FileDescriptor>(v, k)
    &&& forall|k: u32| #[trigger]
        holds::<FilePath>(v, k) ==> at::<FilePath>(w, k) == at::<FilePath>(v, k)
    &&& forall|k: u32| #[trigger]
        holds::<FilePackage>(v, k) ==> at::<FilePackage>(w, k) == at::<FilePackage>(v, k)
    &&& forall|k: u32| #[trigger]
        holds::<FileGroup>(v, k) ==> at::<FileGroup>(w, k) == at::<FileGroup>(v, k)
    &&& forall|k: u32| #[trigger]
        holds::<FileInfo>(v, k) ==> at::<FileInfo>(v, k) == (FileInfo {
            path: at::<FileInfo>(v, k).path,
            ..at::<FileInfo>(w, k)
        })
    &&& forall|k: u32| #[trigger]
        holds::<FileInfo>(v, k) && k < bound ==> at::<FileInfo>(w, k) == at::<FileInfo>(v, k)
}

pub(crate) proof fn lemma_appended_reflexive(v: ArchiveView, bound: int)
    requires
        v.wf(),
    ensures
        appended(v, v, bound),
{
    law_grows_reflexive(v);
}

pub(crate) proof fn lemma_appended_transitive(u: ArchiveView, v: ArchiveView, w: ArchiveView, a: int, b: int, c: int)
    requires
        appended(u, v, a),
        appended(v, w, b),
        c <= a,
        c <= b,
    ensures
        appended(u, w, c),
{
    law_grows_transitive(u, v, w);
    assert forall|k: u32| #[trigger] holds::<FileData>(u, k) implies at::<FileData>(w, k) == at::<FileData>(
        u,
        k,
    ) by {
        assert(holds::<FileData>(v, k));
    }
    assert forall|k: u32| #[trigger] holds::<FileDescriptor>(u, k) implies at::<FileDescriptor>(w, k)
        == at::<FileDescriptor>(u, k) by {
        assert(holds::<FileDescriptor>(v, k));
    }
    assert forall|k: u32| #[trigger] holds::<FilePath>(u, k) implies at::<FilePath>(w, k) == at::<FilePath>(
        u,
        k,
    ) by {
        assert(holds::<FilePath>(v, k));
    }
    assert forall|k: u32| #[trigger] holds::<FilePackage>(u, k) implies at::<FilePackage>(w, k) == at::<
        FilePackage,
    >(u, k) by {
        assert(holds::<FilePackage>(v, k));
    }
    assert forall|k: u32| #[trigger] holds::<FileGroup>(u, k) implies at::<FileGroup>(w, k) == at::<
        FileGroup,
    >(u, k) by {
        assert(holds::<FileGroup>(v, k));
    }
    assert forall|k: u32| #[trigger] holds::<FileInfo>(u, k) implies at::<FileInfo>(u, k) == (FileInfo {
        path: at::<FileInfo>(u, k).path,
        ..at::<FileInfo>(w, k)
    }) by {
        assert(holds::<FileInfo>(v, k));
    }
    assert forall|k: u32| #[trigger] holds::<FileInfo>(u, k) && k < c implies at::<FileInfo>(w, k) == at::<
        FileInfo,
    >(u, k) by {
        assert(holds::<FileInfo>(v, k));
    }
}

proof fn lemma_children_appended(v: ArchiveView, start: u32, end: int, bound: int)
    requires
        v.wf(),
    ensures
        copy_children(v, start, end) matches Some(w) ==> appended(v, w, bound) && w.resource.file_info
            == v.resource.file_info && w.search == v.search && count::<FilePackageChild>(w) == count::<
            FilePackageChild,
        >(v) + if end > start {
            end - start
        } else {
            0
        } && (forall|k: u32| #[trigger]
            holds::<FilePackageChild>(v, k) ==> at::<FilePackageChild>(w, k) == at::<FilePackageChild>(
                v,
                k,
            )) && (end <= count::<FilePackageChild>(v) ==> forall|k: int|
            0 <= k < end - start ==> #[trigger] at::<FilePackageChild>(
                w,
                (count::<FilePackageChild>(v) + k) as u32,
            ) == at::<FilePackageChild>(v, (start + k) as u32)),
    decreases end - start,
{
    lemma_appended_reflexive(v, bound);
    lemma_copy_children_grows(v, start, end);
    if end > start {
        lemma_children_appended(v, start, end - 1, bound);
        if let Some(w) = copy_children(v, start, end - 1) {
            if let Some(x) = copy_children(v, start, end) {
                let child = at::<FilePackageChild>(w, (end - 1) as u32);
                law_stored(w, 0, child);
                law_stored(v, 0, child);
                let n = count::<FilePackageChild>(v);
                assert(x == pushed(w, child));
                assert(x.resource.file_info == w.resource.file_info);
                assert forall|k: u32| #[trigger] holds::<FilePackageChild>(v, k) implies at::<
                    FilePackageChild,
                >(x, k) == at::<FilePackageChild>(v, k) by {
                    assert(holds::<FilePackageChild>(w, k));
                }
                if end <= n {
                    assert forall|k: int| 0 <= k < end - start implies #[trigger] at::<FilePackageChild>(
                        x,
                        (n + k) as u32,
                    ) == at::<FilePackageChild>(v, (start + k) as u32) by {
                        if k < end - 1 - start {
                            assert(at::<FilePackageChild>(w, (n + k) as u32) == at::<FilePackageChild>(
                                v,
                                (start + k) as u32,
                            ));
                        } else {
                            assert(holds::<FilePackageChild>(v, (end - 1) as u32));
                            assert((n + k) as u32 == count::<FilePackageChild>(w) as u32);
                        }
                    }
                }
            }
        }
    }
}

proof fn lemma_copied_flags(flags: FileInfoFlags)
    ensures
        flags.non_localized().plus(INFO_SHARED_AND_UNKNOWN).bits & 0x3_0000 == 0,
        flags.non_localized().plus(INFO_SHARED_AND_UNKNOWN).bits & 0x30_0000 == 0x30_0000,
        flags.non_localized().plus(INFO_SHARED_AND_UNKNOWN).bits & 0xC000_1010 == flags.bits & 0xC000_1010,
{
    let b = flags.bits;
    assert(((b & 0xC030_1010) | 0x30_0000) & 0x3_0000 == 0 && ((b & 0xC030_1010) | 0x30_0000) & 0x30_0000
        == 0x30_0000 && ((b & 0xC030_1010) | 0x30_0000) & 0xC000_1010 == b & 0xC000_1010) by (bit_vector);
}

proof fn lemma_info_copied(v: ArchiveView, i: u32, group: u32, bound: int)
    requires
        v.wf(),
    ensures
        copy_info(v, i, group) matches Some(w) ==> {
            &&& appended(v, w, bound)
            &&& w.search == v.search
            &&& w.resource.file_package_child == v.resource.file_package_child
            &&& count::<FileInfo>(w) == count::<FileInfo>(v) + 1
            &&& is_copy(
                v,
                w,
                at::<FileInfo>(v, i),
                at::<FileInfo>(w, count::<FileInfo>(v) as u32),
                group,
            )
            &&& at::<FileInfo>(w, count::<FileInfo>(v) as u32).path == at::<FileInfo>(v, i).path
        },
{
    reveal(copy_info);
    lemma_copy_info_grows(v, i, group);
    lemma_copied_flags(at::<FileInfo>(v, i).flags);
}

/// A copy stays one when more is added.
proof fn lemma_copy_kept(
    u: ArchiveView,
    v: ArchiveView,
    w: ArchiveView,
    a: FileInfo,
    b: FileInfo,
    group: u32,
    bound: int,
    path: u32,
)
    requires
        is_copy(u, v, a, b, group),
        appended(v, w, bound),
    ensures
        is_copy(u, w, a, FileInfo { path, ..b }, group),
{
    assert(holds::<FileDescriptor>(v, a.desc));
    assert(holds::<FileData>(v, at::<FileDescriptor>(v, a.desc).file_data));
    assert(holds::<FileDescriptor>(v, b.desc));
    assert(holds::<FileData>(v, at::<FileDescriptor>(v, b.desc).file_data));
}

/// The infos from `start` up to `end` have copies, which were made after `v`, from `copies` on.
pub open spec fn are_copies(
    v: ArchiveView,
    w: ArchiveView,
    start: u32,
    end: int,
    copies: u32,
    group: u32,
) -> bool {
    forall|k: int|
        0 <= k < end - start ==> is_copy(
            v,
            w,
            at::<FileInfo>(w, (start + k) as u32),
            #[trigger] at::<FileInfo>(w, (copies + k) as u32),
            group,
        ) && start + k < count::<FileInfo>(w) && copies + k < count::<FileInfo>(w)
}

/// Copies stay copies when more is added, and when paths change.
proof fn lemma_copies_kept(
    t: ArchiveView,
    u: ArchiveView,
    v: ArchiveView,
    w: ArchiveView,
    start: u32,
    end: int,
    copies: u32,
    group: u32,
    bound: int,
)
    requires
        are_copies(u, v, start, end, copies, group),
        appended(v, w, bound),
        grows(t, u),
    ensures
        are_copies(t, w, start, end, copies, group),
{
    assert forall|k: int| 0 <= k < end - start implies is_copy(
        t,
        w,
        at::<FileInfo>(w, (start + k) as u32),
        #[trigger] at::<FileInfo>(w, (copies + k) as u32),
        group,
    ) && start + k < count::<FileInfo>(w) && copies + k < count::<FileInfo>(w) by {
        let a = at::<FileInfo>(v, (start + k) as u32);
        let b = at::<FileInfo>(v, (copies + k) as u32);
        assert(is_copy(u, v, a, b, group));
        law_stored(w, 0, at::<FileInfo>(w, 0));
        assert(holds::<FileInfo>(v, (start + k) as u32));
        assert(holds::<FileInfo>(v, (copies + k) as u32));
        lemma_copy_kept(u, v, w, a, b, group, bound, at::<FileInfo>(w, (copies + k) as u32).path);
    }
}

proof fn lemma_infos_copied(v: ArchiveView, start: u32, end: int, group: u32, bound: int)
    requires
        v.wf(),
        start <= end <= count::<FileInfo>(v),
        bound == u32::MAX,
    ensures
        copy_infos(v, start, end, group) matches Some(w) ==> {
            &&& appended(v, w, bound)
            &&& w.search == v.search
            &&& w.resource.file_package_child == v.resource.file_package_child
            &&& count::<FileInfo>(w) == count::<FileInfo>(v) + (end - start)
            &&& are_copies(v, w, start, end, count::<FileInfo>(v) as u32, group)
            &&& forall|k: int|
                0 <= k < end - start ==> (#[trigger] at::<FileInfo>(
                    w,
                    (count::<FileInfo>(v) + k) as u32,
                )).path == at::<FileInfo>(v, (start + k) as u32).path
        },
    decreases end - start,
{
    law_stored(v, 0, at::<FileInfo>(v, 0));
    lemma_appended_reflexive(v, bound);
    if end > start {
        lemma_infos_copied(v, start, end - 1, group, bound);
        if let Some(w) = copy_infos(v, start, end - 1, group) {
            let i = (end - 1) as u32;
            let n = count::<FileInfo>(v);
            lemma_info_copied(w, i, group, bound);
            if let Some(x) = copy_info(w, i, group) {
                lemma_appended_transitive(v, w, x, bound, bound, bound);
                law_stored(x, 0, at::<FileInfo>(x, 0));
                assert forall|k: int| 0 <= k < end - start implies is_copy(
                    v,
                    x,
                    at::<FileInfo>(x, (start + k) as u32),
                    #[trigger] at::<FileInfo>(x, (n as u32 + k) as u32),
                    group,
                ) && n as u32 + k < count::<FileInfo>(x) && at::<FileInfo>(x, (n as u32 + k) as u32).path
                    == at::<FileInfo>(v, (start + k) as u32).path by {
                    let c = at::<FileInfo>(w, (n as u32 + k) as u32);
                    assert(holds::<FileInfo>(v, (start + k) as u32));
                    assert(holds::<FileInfo>(w, (start + k) as u32));
                    if k < end - 1 - start {
                        assert(holds::<FileInfo>(w, (n as u32 + k) as u32));
                        assert(at::<FileInfo>(x, (n as u32 + k) as u32) == c);
                        lemma_copy_kept(
                            v,
                            w,
                            x,
                            at::<FileInfo>(w, (start + k) as u32),
                            c,
                            group,
                            bound,
                            c.path,
                        );
                    } else {
                        assert((n as u32 + k) as u32 == count::<FileInfo>(w) as u32);
                        assert(at::<FileInfo>(w, i) == at::<FileInfo>(x, i));
                        lemma_copy_before(v, w, x, i, group);
                    }
                }
            }
        }
    }
}

proof fn lemma_copy_before(v: ArchiveView, w: ArchiveView, x: ArchiveView, i: u32, group: u32)
    requires
        grows(v, w),
        copy_info(w, i, group) == Some(x),
    ensures
        is_copy(v, x, at::<FileInfo>(w, i), at::<FileInfo>(x, count::<FileInfo>(w) as u32), group),
{
    lemma_info_copied(w, i, group, 0);
    let a = at::<FileInfo>(w, i);
    let b = at::<FileInfo>(x, count::<FileInfo>(w) as u32);
    assert(is_copy(w, x, a, b, group));
}

pub(crate) proof fn lemma_costume_info_appended(
    v: ArchiveView,
    i: u32,
    old_costume: Hash40,
    costume: Hash40,
    names: SlabView,
)
    requires
        v.wf(),
    ensures
        costume_info(v, i, old_costume, costume, names) matches Some(w) ==> {
            &&& appended(v, w, i as int)
            &&& count::<FileInfo>(w) == count::<FileInfo>(v)
            &&& w.resource.file_package_child == v.resource.file_package_child
            &&& forall|k: u32| #[trigger]
                holds::<FileInfo>(v, k) && k != i ==> at::<FileInfo>(w, k) == at::<FileInfo>(v, k)
        },
{
    lemma_costume_info_grows(v, i, old_costume, costume, names);
    reveal(costume_info);
    let info = at::<FileInfo>(v, i);
    let file = at::<FilePath>(v, info.path);
    lemma_costume_search_path_resource(v, file, old_costume, costume, names);
}

pub(crate) proof fn lemma_costume_infos_appended(
    v: ArchiveView,
    start: u32,
    end: int,
    old_costume: Hash40,
    costume: Hash40,
    names: SlabView,
)
    requires
        v.wf(),
        end <= u32::MAX + 1,
    ensures
        costume_infos(v, start, end, old_costume, costume, names) matches Some(w) ==> {
            &&& appended(v, w, start as int)
            &&& count::<FileInfo>(w) == count::<FileInfo>(v)
            &&& w.resource.file_package_child == v.resource.file_package_child
        },
    decreases end - start,
{
    lemma_appended_reflexive(v, start as int);
    if end > start {
        lemma_costume_infos_appended(v, start, end - 1, old_costume, costume, names);
        if let Some(w) = costume_infos(v, start, end - 1, old_costume, costume, names) {
            let i = (end - 1) as u32;
            lemma_costume_info_appended(w, i, old_costume, costume, names);
            if let Some(x) = costume_info(w, i, old_costume, costume, names) {
                assert(holds::<FileInfo>(w, i)) by {
                    reveal(costume_info);
                }
                law_stored(w, 0, at::<FileInfo>(w, 0));
                lemma_appended_transitive(v, w, x, start as int, i as int, start as int);
            }
        }
    }
}

/// Package `copy` is a copy of `source` with group `g`: it has as many files and children, its files are
/// copies, and it redirects to what `source` redirects to. It is not regional.
pub open spec fn is_package_copy(
    v: ArchiveView,
    w: ArchiveView,
    source: FilePackage,
    copy: FilePackage,
    g: u32,
) -> bool {
    &&& copy.info_count == source.info_count
    &&& copy.child_count == source.child_count
    &&& copy.flags.bits == source.flags.bits & 0x1D00_0000
    &&& copy.spec_data_group() == g % 0x100_0000
    &&& are_copies(
        v,
        w,
        source.info_start,
        source.info_start + source.info_count,
        copy.info_start,
        g,
    )
    &&& holds::<FileGroup>(w, g)
    &&& at::<FileGroup>(w, g) == (FileGroup {
        archive_offset: 0,
        decompressed_size: 0x10,
        compressed_size: 0x10,
        child_start: 0,
        child_count: 0,
        redirection: if source.flags.bits & 0x400_0000 != 0 {
            at::<FileGroup>(w, source.spec_data_group()).redirection
        } else {
            0xFF_FFFF
        },
    })
}

proof fn lemma_package_copy_kept(
    t: ArchiveView,
    u: ArchiveView,
    v: ArchiveView,
    w: ArchiveView,
    source: FilePackage,
    copy: FilePackage,
    g: u32,
    bound: int,
)
    requires
        is_package_copy(u, v, source, copy, g),
        holds::<FileGroup>(v, source.spec_data_group()),
        appended(v, w, bound),
        grows(t, u),
    ensures
        is_package_copy(t, w, source, copy, g),
{
    lemma_copies_kept(
        t,
        u,
        v,
        w,
        source.info_start,
        source.info_start + source.info_count,
        copy.info_start,
        g,
        bound,
    );
    assert(holds::<FileGroup>(v, g));
}

/// Copying the contents of a package, after the group of the copy was added.
pub(crate) proof fn lemma_contents_copied(
    v: ArchiveView,
    source: FilePackage,
    path: Hash40,
    name: Hash40,
    parent: Hash40,
    clashes: spec_fn(FilePackage) -> bool,
)
    requires
        v.wf(),
        runs_ok(v, source),
        count::<FileGroup>(v) < u32::MAX,
        copied_group(v, source, clashes) is Some,
    ensures
        ({
            let group = copied_group(v, source, clashes)->0;
            let g = count::<FileGroup>(v) as u32;
            let bare = copied_package(source, path, name, parent, g);
            copy_contents(pushed(v, group), bare, g, source) matches Some((w, copy)) ==> {
                &&& appended(v, w, u32::MAX as int)
                &&& w.search == v.search
                &&& is_package_copy(v, w, source, copy, g)
                &&& copy.info_start == count::<FileInfo>(v)
                &&& count::<FileInfo>(w) == copy.info_start + copy.info_count
                &&& copy.child_start == count::<FilePackageChild>(v)
                &&& count::<FilePackageChild>(w) == copy.child_start + copy.child_count
                &&& copy == (FilePackage {
                    info_start: copy.info_start,
                    info_count: copy.info_count,
                    child_start: copy.child_start,
                    child_count: copy.child_count,
                    ..bare
                })
                &&& forall|k: u32| #[trigger]
                    holds::<FilePackageChild>(v, k) ==> at::<FilePackageChild>(w, k) == at::<
                        FilePackageChild,
                    >(v, k)
                &&& forall|k: int|
                    0 <= k < copy.child_count ==> #[trigger] at::<FilePackageChild>(
                        w,
                        (copy.child_start + k) as u32,
                    ) == at::<FilePackageChild>(v, (source.child_start + k) as u32)
                &&& forall|k: int|
                    0 <= k < copy.info_count ==> (#[trigger] at::<FileInfo>(
                        w,
                        (copy.info_start + k) as u32,
                    )).path == at::<FileInfo>(v, (source.info_start + k) as u32).path
            }
        }),
{
    let group = copied_group(v, source, clashes)->0;
    let g = count::<FileGroup>(v) as u32;
    let bare = copied_package(source, path, name, parent, g);
    let u = pushed(v, group);
    let max = u32::MAX as int;
    lemma_pushed_group(v, group);
    law_stored(v, 0, group);
    assert(appended(v, u, max));
    law_stored(v, 0, at::<FileInfo>(v, 0));
    law_stored(v, 0, at::<FilePackageChild>(v, 0));
    if let Some((w, copy)) = copy_contents(u, bare, g, source) {
        let children = source.child_start + source.child_count;
        let infos = source.info_start + source.info_count;
        lemma_children_appended(u, source.child_start, children, max);
        let x = copy_children(u, source.child_start, children)->0;
        lemma_infos_copied(x, source.info_start, infos, g, max);
        lemma_appended_transitive(v, u, x, max, max, max);
        lemma_appended_transitive(v, x, w, max, max, max);
        lemma_appended_reflexive(w, max);
        law_stored(w, 0, at::<FileInfo>(w, 0));
        law_stored(w, 0, at::<FilePackageChild>(w, 0));
        assert(copy.info_start == count::<FileInfo>(v));
        lemma_copies_kept(v, x, w, w, source.info_start, infos, copy.info_start, g, max);
        assert(holds::<FileGroup>(u, g));
        assert(holds::<FileGroup>(x, g));
        assert(at::<FileGroup>(w, g) == group);
        assert(holds::<FileGroup>(v, source.spec_data_group()));
        assert forall|k: u32| #[trigger] holds::<FilePackageChild>(v, k) implies at::<FilePackageChild>(w, k)
            == at::<FilePackageChild>(v, k) by {
            assert(holds::<FilePackageChild>(u, k));
        }
        assert forall|k: int| 0 <= k < copy.child_count implies #[trigger] at::<FilePackageChild>(
            w,
            (copy.child_start + k) as u32,
        ) == at::<FilePackageChild>(v, (source.child_start + k) as u32) by {
            assert(at::<FilePackageChild>(x, (count::<FilePackageChild>(u) + k) as u32) == at::<
                FilePackageChild,
            >(u, (source.child_start + k) as u32));
        }
        assert forall|k: int| 0 <= k < copy.info_count implies (#[trigger] at::<FileInfo>(
            w,
            (copy.info_start + k) as u32,
        )).path == at::<FileInfo>(v, (source.info_start + k) as u32).path by {
            assert(at::<FileInfo>(w, (count::<FileInfo>(x) + k) as u32).path == at::<FileInfo>(
                x,
                (source.info_start + k) as u32,
            ).path);
        }
    }
}

/// What copying a child package for a new costume gives: `w` is the archive with the copy, which is found by
/// the path of `child`. It has the name of the child package that it was copied from, and `parent` for its
/// parent.
pub open spec fn is_child_copy(
    v: ArchiveView,
    w: ArchiveView,
    path: Hash40,
    child: FilePackageChild,
    parent: Hash40,
    g: u32,
) -> bool {
    let p = w.find_file_package(path)->0;
    let q = w.find_file_package(child.spec_path())->0;
    let source = at::<FilePackage>(w, p);
    let copy = at::<FilePackage>(w, q);
    &&& w.find_file_package(path) is Some
    &&& w.find_file_package(child.spec_path()) is Some
    &&& child.spec_path() == below(parent, source.spec_name())
    &&& child.path_and_package.spec_data() == q % 0x100_0000
    &&& copy.spec_path() == child.spec_path()
    &&& source.spec_name().wf() ==> copy.spec_name() == source.spec_name()
    &&& parent.wf() ==> copy.spec_parent() == parent
    &&& holds::<FileGroup>(w, source.spec_data_group())
    &&& is_package_copy(v, w, source, copy, g)
}

/// As [`is_child_copy`] says, for some group.
pub open spec fn has_child_copy(
    v: ArchiveView,
    w: ArchiveView,
    path: Hash40,
    child: FilePackageChild,
    parent: Hash40,
) -> bool {
    exists|g: u32| #[trigger] is_child_copy(v, w, path, child, parent, g)
}

proof fn lemma_child_copy_kept(
    t: ArchiveView,
    u: ArchiveView,
    v: ArchiveView,
    w: ArchiveView,
    path: Hash40,
    child: FilePackageChild,
    parent: Hash40,
    g: u32,
    bound: int,
)
    requires
        is_child_copy(u, v, path, child, parent, g),
        appended(v, w, bound),
        grows(t, u),
    ensures
        is_child_copy(t, w, path, child, parent, g),
{
    let p = v.find_file_package(path)->0;
    let q = v.find_file_package(child.spec_path())->0;
    assert(holds::<FilePackage>(v, p));
    assert(holds::<FilePackage>(v, q));
    lemma_package_copy_kept(t, u, v, w, at::<FilePackage>(v, p), at::<FilePackage>(v, q), g, bound);
}

pub(crate) proof fn lemma_below_wf(folder: Hash40, name: Hash40)
    ensures
        below(folder, name).wf(),
{
    law_hash40_wf(spec_with(folder, encode_utf8("/"@)), name, Seq::empty());
}

pub(crate) proof fn lemma_package_inserted(v: ArchiveView, package: FilePackage)
    requires
        v.wf(),
        v.can_insert_file_package(package),
    ensures
        appended(v, v.insert_file_package(package), u32::MAX as int),
{
    lemma_insert_package(v, package);
    law_insert_file_package(v, package, package.spec_path());
}

#[verifier::spinoff_prover]
pub(crate) proof fn lemma_child_duplicated(
    v: ArchiveView,
    path: Hash40,
    new_parent: Hash40,
    old_costume: Hash40,
    costume: Hash40,
    names: SlabView,
)
    requires
        v.wf(),
    ensures
        duplicate_child(v, path, new_parent, old_costume, costume, names) matches Some((w, child)) ==> {
            &&& appended(v, w, count::<FileInfo>(v) as int)
            &&& w.resource.file_package_child == v.resource.file_package_child
            &&& is_child_copy(v, w, path, child, new_parent, count::<FileGroup>(v) as u32)
        },
{
    reveal(duplicate_child);
    if let Some((w, child)) = duplicate_child(v, path, new_parent, old_costume, costume, names) {
        let p = v.find_file_package(path)->0;
        let source = at::<FilePackage>(v, p);
        let g = count::<FileGroup>(v) as u32;
        let copy_path = below(new_parent, source.spec_name());
        let bare = copied_package(source, copy_path, source.spec_name(), new_parent, g);
        let clashes = |q: FilePackage| q.spec_parent() == source.spec_parent();
        let group = copied_group(v, source, clashes)->0;
        lemma_contents_copied(v, source, copy_path, source.spec_name(), new_parent, clashes);
        let (x, copy) = copy_contents(pushed(v, group), bare, g, source)->0;
        let n = count::<FileInfo>(v) as int;
        let max = u32::MAX as int;
        law_stored(v, 0, at::<FileInfo>(v, 0));
        law_stored(x, 0, at::<FileInfo>(x, 0));
        let end = copy.info_start + copy.info_count;
        lemma_costume_infos_appended(x, copy.info_start, end, old_costume, costume, names);
        let y = costume_infos(x, copy.info_start, end, old_costume, costume, names)->0;
        lemma_package_inserted(y, copy);
        law_insert_file_package(y, copy, path);
        assert(w == y.insert_file_package(copy));
        lemma_appended_transitive(v, x, y, max, n, n);
        lemma_appended_transitive(v, y, w, n, max, n);
        lemma_appended_transitive(x, y, w, n, max, n);
        assert(x.resource.file_package_child == v.resource.file_package_child) by {
            assert(copy_children(
                pushed(v, group),
                source.child_start,
                source.child_start + source.child_count,
            ) == Some(pushed(v, group)));
            lemma_infos_copied(
                pushed(v, group),
                source.info_start,
                source.info_start + source.info_count,
                g,
                max,
            );
            lemma_pushed_group(v, group);
        }
        assert(holds::<FileGroup>(v, source.spec_data_group()));
        law_grows_reflexive(v);
        lemma_package_copy_kept(v, v, x, w, source, copy, g, n);
        lemma_below_wf(new_parent, source.spec_name());
        lemma_copied_parts(source, copy_path, source.spec_name(), new_parent, g);
        law_hash_with_data(copy_path, 0);
        let q = count::<FilePackage>(y) as u32;
        lemma_child_parts(copy_path, q);
        assert(holds::<FilePackage>(v, p));
        assert(w.find_file_package(path) == Some(p));
    }
}

proof fn lemma_child_parts(path: Hash40, q: u32)
    requires
        path.wf(),
    ensures
        HashWithData::of(path, q).spec_hash40() == path,
        HashWithData::of(path, q).spec_data() == q % 0x100_0000,
{
}

pub(crate) proof fn lemma_copied_parts(source: FilePackage, path: Hash40, name: Hash40, parent: Hash40, group: u32)
    requires
        path.wf(),
    ensures
        copied_package(source, path, name, parent, group).spec_path() == path,
        name.wf() ==> copied_package(source, path, name, parent, group).spec_name() == name,
        parent.wf() ==> copied_package(source, path, name, parent, group).spec_parent() == parent,
        copied_package(source, path, name, parent, group).spec_data_group() == group % 0x100_0000,
{
    law_hash_with_data(path, 0xFF_FFFF);
    if name.wf() {
        law_hash_with_data(name, 0);
    }
    if parent.wf() {
        law_hash_with_data(parent, 0);
    }
}

/// Child `i` of a copied package is a copy of what it was in `u`.
pub open spec fn child_replaced(
    v: ArchiveView,
    u: ArchiveView,
    w: ArchiveView,
    i: u32,
    parent: Hash40,
) -> bool {
    exists|g: u32| #[trigger]
        is_child_copy(
            v,
            w,
            at::<FilePackageChild>(u, i).spec_path(),
            at::<FilePackageChild>(w, i),
            parent,
            g,
        )
}

#[verifier::spinoff_prover]
pub(crate) proof fn lemma_children_replaced(
    v: ArchiveView,
    start: u32,
    end: int,
    new_parent: Hash40,
    old_costume: Hash40,
    costume: Hash40,
    names: SlabView,
)
    requires
        v.wf(),
        end <= u32::MAX,
    ensures
        replace_children(v, start, end, new_parent, old_costume, costume, names) matches Some(w) ==> {
            &&& appended(v, w, count::<FileInfo>(v) as int)
            &&& count::<FilePackageChild>(w) == count::<FilePackageChild>(v)
            &&& forall|k: u32| #[trigger]
                holds::<FilePackageChild>(v, k) && !(start <= k < end) ==> at::<FilePackageChild>(w, k)
                    == at::<FilePackageChild>(v, k)
            &&& forall|k: u32|
                start <= k < end ==> #[trigger] child_replaced(v, v, w, k, new_parent)
        },
    decreases end - start,
{
    let n = count::<FileInfo>(v) as int;
    lemma_appended_reflexive(v, n);
    if end > start {
        lemma_children_replaced(v, start, end - 1, new_parent, old_costume, costume, names);
        if let Some(w) = replace_children(v, start, end - 1, new_parent, old_costume, costume, names) {
            reveal(replace_child);
            let i = (end - 1) as u32;
            let path = at::<FilePackageChild>(w, i).spec_path();
            lemma_child_duplicated(w, path, new_parent, old_costume, costume, names);
            if let Some(y) = replace_children(v, start, end, new_parent, old_costume, costume, names) {
                assert(holds::<FilePackageChild>(v, i));
                let (x, child) = duplicate_child(w, path, new_parent, old_costume, costume, names)->0;
                let m = count::<FileInfo>(w) as int;
                law_stored(x, i, child);
                assert(y == with(x, i, child));
                assert(appended(x, y, m)) by {
                    lemma_with_child(x, i, child);
                }
                lemma_appended_transitive(v, w, x, n, m, n);
                lemma_appended_transitive(w, x, y, m, m, m);
                lemma_appended_transitive(v, x, y, n, m, n);
                assert forall|k: u32| #[trigger]
                    holds::<FilePackageChild>(v, k) && !(start <= k < end) implies at::<FilePackageChild>(
                    y,
                    k,
                ) == at::<FilePackageChild>(v, k) by {
                    assert(holds::<FilePackageChild>(x, k));
                }
                let g = count::<FileGroup>(w) as u32;
                lemma_child_copy_kept(v, w, x, y, path, child, new_parent, g, m);
                assert forall|k: u32| start <= k < end implies #[trigger] child_replaced(
                    v,
                    v,
                    y,
                    k,
                    new_parent,
                ) by {
                    if k == i {
                        assert(at::<FilePackageChild>(y, k) == child);
                        assert(is_child_copy(
                            v,
                            y,
                            at::<FilePackageChild>(v, k).spec_path(),
                            at::<FilePackageChild>(y, k),
                            new_parent,
                            g,
                        ));
                    } else {
                        assert(child_replaced(v, v, w, k, new_parent));
                        let h = choose|h: u32| #[trigger]
                            is_child_copy(
                                v,
                                w,
                                at::<FilePackageChild>(v, k).spec_path(),
                                at::<FilePackageChild>(w, k),
                                new_parent,
                                h,
                            );
                        law_grows_reflexive(v);
                        lemma_child_copy_kept(
                            v,
                            v,
                            w,
                            y,
                            at::<FilePackageChild>(v, k).spec_path(),
                            at::<FilePackageChild>(w, k),
                            new_parent,
                            h,
                            m,
                        );
                        assert(at::<FilePackageChild>(y, k) == at::<FilePackageChild>(w, k));
                        assert(is_child_copy(
                            v,
                            y,
                            at::<FilePackageChild>(v, k).spec_path(),
                            at::<FilePackageChild>(y, k),
                            new_parent,
                            h,
                        ));
                    }
                }
            }
        }
    }
}

/// What `duplicate_package` gives, in terms of the archive with the copy.
#[verifier::spinoff_prover]
proof fn lemma_package_duplicated(v: ArchiveView, path: Hash40, costume: Hash40, names: SlabView)
    requires
        v.wf(),
    ensures
        duplicate_package(v, path, costume, names) matches Some(w) ==> {
            let source = at::<FilePackage>(v, v.find_file_package(path)->0);
            let copy_path = below(source.spec_parent(), costume);
            let p = w.find_file_package(copy_path);
            let copy = at::<FilePackage>(w, p->0);
            &&& v.find_file_package(path) is Some
            &&& p == Some((count::<FilePackage>(w) - 1) as u32)
            &&& runs_ok(v, source)
            &&& appended(v, w, count::<FileInfo>(v) as int)
            &&& is_package_copy(v, w, source, copy, count::<FileGroup>(v) as u32)
            &&& copy.info_start >= count::<FileInfo>(v)
            &&& copy.child_start >= count::<FilePackageChild>(v)
            &&& copy.child_start + copy.child_count <= count::<FilePackageChild>(w)
            &&& copy.spec_path() == copy_path
            &&& costume.wf() ==> copy.spec_name() == costume
            &&& source.spec_parent().wf() ==> copy.spec_parent() == source.spec_parent()
            &&& forall|k: u32| #[trigger]
                holds::<FilePackageChild>(v, k) ==> at::<FilePackageChild>(w, k) == at::<FilePackageChild>(
                    v,
                    k,
                )
            &&& forall|k: int|
                0 <= k < copy.child_count ==> has_child_copy(
                    v,
                    w,
                    at::<FilePackageChild>(v, (source.child_start + k) as u32).spec_path(),
                    #[trigger] at::<FilePackageChild>(w, (copy.child_start + k) as u32),
                    copy_path,
                )
        },
{
    if let Some(w) = duplicate_package(v, path, costume, names) {
        let source = at::<FilePackage>(v, v.find_file_package(path)->0);
        let old_costume = source.spec_name();
        let parent = source.spec_parent();
        let g = count::<FileGroup>(v) as u32;
        let copy_path = below(parent, costume);
        let bare = copied_package(source, copy_path, costume, parent, g);
        let clashes = |q: FilePackage| q.spec_name() == source.spec_name();
        let group = copied_group(v, source, clashes)->0;
        lemma_contents_copied(v, source, copy_path, costume, parent, clashes);
        lemma_below_wf(parent, costume);
        lemma_copied_parts(source, copy_path, costume, parent, g);
        let (x, copy) = copy_contents(pushed(v, group), bare, g, source)->0;
        assert(copy.spec_path() == copy_path);
        let n = count::<FileInfo>(v) as int;
        let m = count::<FileInfo>(x) as int;
        let max = u32::MAX as int;
        law_stored(v, 0, at::<FileInfo>(v, 0));
        law_stored(x, 0, at::<FileInfo>(x, 0));
        law_stored(x, 0, at::<FilePackageChild>(x, 0));
        let start = copy.child_start;
        let children = copy.child_start + copy.child_count;
        lemma_children_replaced(x, start, children, copy_path, old_costume, costume, names);
        let y = replace_children(x, start, children, copy_path, old_costume, costume, names)->0;
        let end = copy.info_start + copy.info_count;
        lemma_costume_infos_appended(y, copy.info_start, end, old_costume, costume, names);
        let z = costume_infos(y, copy.info_start, end, old_costume, costume, names)->0;
        lemma_package_inserted(z, copy);
        law_insert_file_package(z, copy, path);
        assert(w == z.insert_file_package(copy));
        lemma_appended_transitive(v, x, y, max, m, n);
        lemma_appended_transitive(v, y, z, n, n, n);
        lemma_appended_transitive(v, z, w, n, max, n);
        lemma_appended_transitive(x, y, z, m, n, n);
        lemma_appended_transitive(x, z, w, n, max, n);
        lemma_appended_transitive(y, z, w, n, max, n);
        law_grows_reflexive(v);
        assert(holds::<FileGroup>(v, source.spec_data_group()));
        assert(holds::<FileGroup>(x, source.spec_data_group()));
        lemma_package_copy_kept(v, v, x, w, source, copy, g, n);
        assert(w.resource.file_package_child == y.resource.file_package_child);
        assert forall|k: u32| #[trigger] holds::<FilePackageChild>(v, k) implies at::<FilePackageChild>(w, k)
            == at::<FilePackageChild>(v, k) by {
            assert(holds::<FilePackageChild>(x, k));
        }
        assert forall|k: int| 0 <= k < copy.child_count implies has_child_copy(
            v,
            w,
            at::<FilePackageChild>(v, (source.child_start + k) as u32).spec_path(),
            #[trigger] at::<FilePackageChild>(w, (copy.child_start + k) as u32),
            copy_path,
        ) by {
            let i = (start + k) as u32;
            assert(child_replaced(x, x, y, i, copy_path));
            let from = at::<FilePackageChild>(x, i).spec_path();
            let h = choose|h: u32| #[trigger]
                is_child_copy(x, y, from, at::<FilePackageChild>(y, i), copy_path, h);
            lemma_child_copy_kept(v, x, y, w, from, at::<FilePackageChild>(y, i), copy_path, h, n);
            assert(is_child_copy(v, w, from, at::<FilePackageChild>(w, i), copy_path, h));
        }
    }
}

/// What entities stand for is what they stood for.
proof fn lemma_entity_data_kept(v: ArchiveView, w: ArchiveView, e: u32, prefs: LocalePreferences)
    requires
        appended(v, w, count::<FileInfo>(v) as int),
    ensures
        entity_data(v, e, prefs) matches Some(f) ==> entity_data(w, e, prefs) == Some(f) && at::<FileData>(
            w,
            f,
        ) == at::<FileData>(v, f),
{
    if let Some(f) = entity_data(v, e, prefs) {
        let i = at::<FileEntity>(v, e).info;
        let d = at::<FileInfo>(v, i).spec_desc_index(prefs);
        assert(holds::<FileInfo>(v, i));
        law_stored(w, 0, at::<FileDescriptor>(w, 0));
        assert(holds::<FileDescriptor>(v, d as u32));
        assert(holds::<FileData>(v, f));
    }
}

/// Each file of a copied package shares the data of the file that it was copied from. If packages skip that
/// file, they skip the copy. Otherwise the copy is loaded from the entity which that file points to, and
/// following the entity reaches the data that it reached before the copy was made, and so the data that the
/// file itself is loaded from. The copy points to this entity too. Its own data and the group are those of
/// the new package, one descriptor is in force under all preferences, and the file it was copied from is as
/// it was.
pub proof fn law_copied_file(
    v: ArchiveView,
    path: Hash40,
    costume: Hash40,
    names: SlabView,
    k: int,
    prefs: LocalePreferences,
)
    requires
        v.wf(),
        v.find_file_package(path) matches Some(p) ==> 0 <= k < at::<FilePackage>(v, p).info_count,
    ensures
        duplicate_package(v, path, costume, names) matches Some(w) ==> {
            let source = at::<FilePackage>(v, v.find_file_package(path)->0);
            let p = w.find_file_package(below(source.spec_parent(), costume));
            let copy = at::<FilePackage>(w, p->0);
            let i = (source.info_start + k) as u32;
            let j = (copy.info_start + k) as u32;
            let a = at::<FileInfo>(v, i);
            let b = at::<FileInfo>(w, j);
            let from = at::<FileDescriptor>(w, a.desc);
            let to = at::<FileDescriptor>(w, b.desc);
            &&& v.find_file_package(path) is Some
            &&& p is Some
            &&& holds::<FileInfo>(v, i)
            &&& at::<FileInfo>(w, i) == a
            &&& !holds::<FileInfo>(v, j)
            &&& holds::<FileInfo>(w, j)
            &&& b.entity == a.entity
            &&& holds::<FileEntity>(v, a.entity)
            &&& at::<FileEntity>(w, a.entity) == at::<FileEntity>(v, a.entity)
            &&& holds::<FileDescriptor>(v, a.desc) ==> from == at::<FileDescriptor>(v, a.desc)
            &&& b.spec_desc_index(prefs) == b.desc
            &&& !holds::<FileDescriptor>(v, b.desc)
            &&& holds::<FileDescriptor>(w, b.desc)
            &&& from.load_method / 0x100_0000 == 3 ==> to.load_method == from.load_method
            &&& from.load_method / 0x100_0000 != 3 ==> to.load_method == FileLoadMethod::Unowned(
                a.entity,
            ).raw()
            &&& from.load_method / 0x100_0000 != 3 && a.entity < 0x100_0000 ==> FileLoadMethod::of_raw(
                to.load_method,
            ) == FileLoadMethod::Unowned(a.entity)
            &&& entity_data(v, a.entity, prefs) matches Some(f) ==> entity_data(w, b.entity, prefs)
                == Some(f) && at::<FileData>(w, f) == at::<FileData>(v, f)
            &&& holds::<FileData>(w, to.file_data)
            &&& !holds::<FileData>(v, to.file_data)
            &&& at::<FileData>(w, to.file_data) == at::<FileData>(w, from.file_data)
            &&& to.group == count::<FileGroup>(v)
            &&& copy.spec_data_group() == to.group % 0x100_0000
            &&& b.flags.bits & 0x30_0000 == 0x30_0000
            &&& b.flags.bits & 0xC000_1010 == a.flags.bits & 0xC000_1010
        },
{
    lemma_package_duplicated(v, path, costume, names);
    if let Some(w) = duplicate_package(v, path, costume, names) {
        let source = at::<FilePackage>(v, v.find_file_package(path)->0);
        let p = w.find_file_package(below(source.spec_parent(), costume));
        let copy = at::<FilePackage>(w, p->0);
        let i = (source.info_start + k) as u32;
        let j = (copy.info_start + k) as u32;
        law_stored(v, 0, at::<FileInfo>(v, 0));
        law_stored(w, 0, at::<FileInfo>(w, 0));
        assert(holds::<FileInfo>(v, i));
        let a = at::<FileInfo>(v, i);
        assert(at::<FileInfo>(w, i) == a);
        let b = at::<FileInfo>(w, j);
        assert(is_copy(v, w, a, b, count::<FileGroup>(v) as u32));
        law_non_localized_desc(b, prefs);
        lemma_entity_data_kept(v, w, a.entity, prefs);
        if a.entity < 0x100_0000 {
            law_load_method(FileLoadMethod::Unowned(a.entity));
        }
        law_stored(v, 0, at::<FileGroup>(v, 0));
    }
}

/// The copy of a package redirects to what the package redirects to, and is a package of the same kind but
/// not regional. Its group lies at no place of the archive and has no files of its own.
pub proof fn law_copied_package(v: ArchiveView, path: Hash40, costume: Hash40, names: SlabView)
    requires
        v.wf(),
    ensures
        duplicate_package(v, path, costume, names) matches Some(w) ==> {
            let source = at::<FilePackage>(v, v.find_file_package(path)->0);
            let p = w.find_file_package(below(source.spec_parent(), costume));
            let copy = at::<FilePackage>(w, p->0);
            let g = count::<FileGroup>(v) as u32;
            let group = at::<FileGroup>(w, g);
            &&& p == Some((count::<FilePackage>(w) - 1) as u32)
            &&& copy.spec_path() == below(source.spec_parent(), costume)
            &&& costume.wf() ==> copy.spec_name() == costume
            &&& source.spec_parent().wf() ==> copy.spec_parent() == source.spec_parent()
            &&& copy.info_count == source.info_count
            &&& copy.child_count == source.child_count
            &&& copy.flags.bits == source.flags.bits & 0x1D00_0000
            &&& copy.spec_data_group() == g % 0x100_0000
            &&& holds::<FileGroup>(w, g)
            &&& group.archive_offset == 0
            &&& group.child_count == 0
            &&& source.flags.bits & 0x400_0000 != 0 ==> group.redirection == at::<FileGroup>(
                w,
                source.spec_data_group(),
            ).redirection
            &&& source.flags.bits & 0x400_0000 == 0 ==> group.redirection == 0xFF_FFFF
            &&& forall|k: u32| #[trigger]
                holds::<FilePackage>(v, k) ==> at::<FilePackage>(w, k) == at::<FilePackage>(v, k)
            &&& forall|k: u32| #[trigger]
                holds::<FileGroup>(v, k) ==> at::<FileGroup>(w, k) == at::<FileGroup>(v, k)
            &&& forall|k: u32| #[trigger]
                holds::<FileInfo>(v, k) ==> at::<FileInfo>(w, k) == at::<FileInfo>(v, k)
            &&& forall|k: u32| #[trigger]
                holds::<FileDescriptor>(v, k) ==> at::<FileDescriptor>(w, k) == at::<FileDescriptor>(v, k)
            &&& forall|k: u32| #[trigger]
                holds::<FilePath>(v, k) ==> at::<FilePath>(w, k) == at::<FilePath>(v, k)
            &&& w.resource.file_entity == v.resource.file_entity
        },
{
    lemma_package_duplicated(v, path, costume, names);
    law_stored(v, 0, at::<FileGroup>(v, 0));
}

/// Every child of a copied package is itself a copy: it is found below the new package, under the name of
/// the child that it was copied from, and its files are copies of the files of that child.
pub proof fn law_copied_child(v: ArchiveView, path: Hash40, costume: Hash40, names: SlabView, k: int)
    requires
        v.wf(),
        v.find_file_package(path) matches Some(p) ==> 0 <= k < at::<FilePackage>(v, p).child_count,
    ensures
        duplicate_package(v, path, costume, names) matches Some(w) ==> {
            let source = at::<FilePackage>(v, v.find_file_package(path)->0);
            let copy_path = below(source.spec_parent(), costume);
            let copy = at::<FilePackage>(w, w.find_file_package(copy_path)->0);
            let old = at::<FilePackageChild>(v, (source.child_start + k) as u32).spec_path();
            let new = at::<FilePackageChild>(w, (copy.child_start + k) as u32).spec_path();
            let old_package = at::<FilePackage>(w, w.find_file_package(old)->0);
            let new_package = at::<FilePackage>(w, w.find_file_package(new)->0);
            &&& w.find_file_package(old) is Some
            &&& v.find_file_package(old) is Some ==> w.find_file_package(old) == v.find_file_package(old)
                && old_package == at::<FilePackage>(v, v.find_file_package(old)->0)
            &&& w.find_file_package(new) is Some
            &&& new == below(copy_path, old_package.spec_name())
            &&& new_package.spec_path() == new
            &&& new_package.spec_parent() == copy_path
            &&& old_package.spec_name().wf() ==> new_package.spec_name() == old_package.spec_name()
            &&& new_package.info_count == old_package.info_count
            &&& new_package.child_count == old_package.child_count
            &&& new_package.flags.bits == old_package.flags.bits & 0x1D00_0000
            &&& exists|g: u32|
                new_package.spec_data_group() == g % 0x100_0000 && #[trigger] are_copies(
                    v,
                    w,
                    old_package.info_start,
                    old_package.info_start + old_package.info_count,
                    new_package.info_start,
                    g,
                )
        },
{
    lemma_package_duplicated(v, path, costume, names);
    if let Some(w) = duplicate_package(v, path, costume, names) {
        let source = at::<FilePackage>(v, v.find_file_package(path)->0);
        let copy_path = below(source.spec_parent(), costume);
        let copy = at::<FilePackage>(w, w.find_file_package(copy_path)->0);
        let i = (copy.child_start + k) as u32;
        let old = at::<FilePackageChild>(v, (source.child_start + k) as u32).spec_path();
        let new = at::<FilePackageChild>(w, i);
        assert(has_child_copy(v, w, old, new, copy_path));
        let g = choose|g: u32| #[trigger] is_child_copy(v, w, old, new, copy_path, g);
        assert(is_child_copy(v, w, old, new, copy_path, g));
        lemma_below_wf(source.spec_parent(), costume);
        if let Some(q) = v.find_file_package(old) {
            assert(holds::<FilePackage>(v, q));
        }
    }
}

} // verus!
