//! Adding files that the archive does not have.
//!
//! A new file becomes a search path below its folder and is added to the package of its folder. The
//! infos of a package lie side by side, so a package that gets new files is given a new run of infos.

use crate::access::{at, count, has_run, holds, law_stored, pushed, with};
use crate::archive::{Archive, ArchiveView};
use crate::data::{
    FileData, FileDescriptor, FileEntity, FileGroup, FileInfo, FileInfoFlags, FileLoadMethod,
    FilePackage, FilePath, SearchFolder, SearchPath, SearchPathLink, INFO_IS_GRAPHICS_ARCHIVE,
};
use crate::hash40::{hash40, law_with, spec_trim, Hash40};
use crate::reshare::room;
use crate::strings::bytes_eq;
use vstd::prelude::*;
use vstd::utf8::encode_utf8;

verus! {

/// A file that is to be added to the archive.
#[derive(Copy, Clone, Debug, PartialEq, Eq, Structural)]
pub struct NewFile {
    pub filepath: FilePath,
    pub size: u32,
}

/// Is this the folder of a fighter's costume, such as `c00`? It starts with a `c` and has three bytes.
pub open spec fn is_costume(name: Seq<u8>) -> bool {
    name.len() == 3 && name[0] == 0x63
}

/// Hash of the package that a file belongs to, from the components of the file's path. Files of
/// fighters belong to their costume, files of stages to their folder.
pub open spec fn package_of(components: Seq<Seq<u8>>, path: FilePath) -> Option<Hash40> {
    if components.len() == 0 {
        None
    } else if components[0] == encode_utf8("fighter"@) {
        if components.len() > 4 && is_costume(components[4]) {
            Some(
                hash40(
                    encode_utf8("fighter"@) + encode_utf8("/"@) + components[1] + encode_utf8("/"@)
                        + components[4],
                ),
            )
        } else {
            None
        }
    } else if components[0] == encode_utf8("stage"@) {
        Some(spec_trim(path.spec_parent(), encode_utf8("/"@)))
    } else {
        None
    }
}

/// Hash of the package that a file belongs to, if it is known.
pub fn package_for(components: &Vec<Vec<u8>>, path: &FilePath) -> (r: Option<Hash40>)
    ensures
        r == package_of(components@.map_values(|c: Vec<u8>| c@), *path),
{
    let ghost c = components@.map_values(|c: Vec<u8>| c@);
    if components.len() == 0 {
        return None;
    }
    proof {
        assert(c[0] == components@[0]@);
    }
    if bytes_eq(&components[0], "fighter".as_bytes()) {
        if components.len() > 4 {
            let name = &components[1];
            let slot = &components[4];
            proof {
                assert(c[1] == name@ && c[4] == slot@);
            }
            if slot.len() == 3 && slot[0] == 0x63 {
                proof {
                    let f = encode_utf8("fighter"@);
                    let d = encode_utf8("/"@);
                    law_with(f, d);
                    law_with(f + d, name@);
                    law_with(f + d + name@, d);
                    law_with(f + d + name@ + d, slot@);
                }
                return Some(
                    Hash40::const_new("fighter").const_with("/").const_with_bytes(name).const_with(
                        "/",
                    ).const_with_bytes(slot),
                );
            }
        }
        None
    } else if bytes_eq(&components[0], "stage".as_bytes()) {
        Some(path.parent().const_trim_trailing("/"))
    } else {
        None
    }
}

/// Index of the last child of a folder, from child `i` on. `None` if the list of children is broken or
/// goes on for more than `fuel` steps.
pub open spec fn last_child(v: ArchiveView, i: u32, fuel: nat) -> Option<u32>
    decreases fuel,
{
    let path = at::<SearchPath>(v, i);
    if path.spec_is_end() {
        Some(i)
    } else if fuel == 0 {
        None
    } else {
        match v.follow(path.next_index()) {
            Some(j) => last_child(v, j, (fuel - 1) as nat),
            None => None,
        }
    }
}

/// The archive in which the last child of folder `f` is followed by `link`. A list of children that
/// is longer than the table of paths runs in a circle and has no last child.
#[verifier::opaque]
pub open spec fn append_child(v: ArchiveView, f: u32, link: u32) -> Option<ArchiveView> {
    match v.follow(at::<SearchFolder>(v, f).first_child_index) {
        Some(c) => match last_child(v, c, count::<SearchPath>(v)) {
            Some(l) => Some(with(v, l, at::<SearchPath>(v, l).with_next(link))),
            None => None,
        },
        None => None,
    }
}

/// Finds the last child of a folder, from child `i` on.
pub fn find_last_child(archive: &Archive, i: u32) -> (r: Option<u32>)
    requires
        archive.wf(),
        holds::<SearchPath>(archive@, i),
    ensures
        r == last_child(archive@, i, count::<SearchPath>(archive@)),
        r matches Some(l) ==> holds::<SearchPath>(archive@, l) && at::<SearchPath>(
            archive@,
            l,
        ).spec_is_end(),
{
    let mut fuel: usize = archive.num::<SearchPath>();
    let mut cur: u32 = i;
    loop
        invariant
            archive.wf(),
            holds::<SearchPath>(archive@, cur),
            last_child(archive@, cur, fuel as nat) == last_child(
                archive@,
                i,
                count::<SearchPath>(archive@),
            ),
        decreases fuel,
    {
        let Some(path) = archive.read::<SearchPath>(cur) else {
            return None;
        };
        if path.is_end() {
            return Some(cur);
        }
        if fuel == 0 {
            return None;
        }
        match archive.follow(path.path_and_next_index.data()) {
            Some(next) => {
                cur = next;
                fuel -= 1;
            },
            None => {
                return None;
            },
        }
    }
}

/// Puts a link behind the last child of a folder.
pub fn append_to_folder(archive: &mut Archive, f: u32, link: u32) -> (r: bool)
    requires
        old(archive).wf(),
        holds::<SearchFolder>(old(archive)@, f),
    ensures
        final(archive).wf(),
        r == (append_child(old(archive)@, f, link) is Some),
        r ==> append_child(old(archive)@, f, link) == Some(final(archive)@),
{
    proof {
        reveal(append_child);
    }
    let Some(folder) = archive.read::<SearchFolder>(f) else {
        return false;
    };
    let Some(first) = archive.follow(folder.first_child_index) else {
        return false;
    };
    let Some(last) = find_last_child(archive, first) else {
        return false;
    };
    let Some(mut path) = archive.read::<SearchPath>(last) else {
        return false;
    };
    path.set_next_index(link);
    archive.write(last, path);
    true
}

/// New files by the hash of their package.
pub type Groups = Seq<(Hash40, Seq<NewFile>)>;

/// Position of the group with this hash, or the number of groups.
pub open spec fn group_position(groups: Groups, package: Hash40) -> int
    decreases groups.len(),
{
    if groups.len() == 0 {
        0
    } else if groups[0].0 == package {
        0
    } else {
        1 + group_position(groups.drop_first(), package)
    }
}

/// The groups with one more file.
pub open spec fn grouped(groups: Groups, package: Hash40, file: NewFile) -> Groups {
    let g = group_position(groups, package);
    if g < groups.len() {
        groups.update(g, (package, groups[g].1.push(file)))
    } else {
        groups.push((package, seq![file]))
    }
}

/// State of adding search paths.
pub struct Registering {
    pub archive: ArchiveView,
    pub groups: Groups,
}

/// The state after a new file was given a search path. Files that the archive has and files without
/// a package are left alone. Files without a folder get no further.
#[verifier::opaque]
pub open spec fn register(s: Registering, file: NewFile, package: Option<Hash40>) -> Option<
    Registering,
> {
    let v = s.archive;
    let path = SearchPath::of_file_path(file.filepath);
    if v.find_file_path(file.filepath.spec_path()) is Some || package is None {
        Some(s)
    } else if !v.can_insert_search_path(path) {
        None
    } else {
        let w = v.insert_search_path(path);
        let link = count::<SearchPathLink>(v) as u32;
        match w.find_search_folder(path.spec_parent()) {
            Some(f) => match append_child(w, f, link) {
                Some(x) => Some(
                    Registering { archive: x, groups: grouped(s.groups, package->0, file) },
                ),
                None => None,
            },
            None => Some(Registering { archive: w, ..s }),
        }
    }
}

/// The first `n` files, one after the other.
pub open spec fn register_all(s: Registering, files: Seq<(NewFile, Option<Hash40>)>, n: int) -> Option<
    Registering,
>
    decreases n,
{
    if n <= 0 {
        Some(s)
    } else {
        match register_all(s, files, n - 1) {
            Some(t) => register(t, files[n - 1].0, files[n - 1].1),
            None => None,
        }
    }
}

/// Info `i` after it was copied to the end of the table. If its file is loaded by this info, it is
/// loaded by the copy from now on.
#[verifier::opaque]
pub open spec fn relocate(v: ArchiveView, i: u32) -> Option<ArchiveView> {
    let info = at::<FileInfo>(v, i);
    let e = at::<FilePath>(v, info.path).spec_entity();
    let entity = at::<FileEntity>(v, e);
    let n = count::<FileInfo>(v) as u32;
    let w = pushed(v, info);
    if !holds::<FileInfo>(v, i) || !room::<FileInfo>(v) || !holds::<FilePath>(v, info.path)
        || !holds::<FileEntity>(v, e) || !holds::<FileInfo>(w, entity.info) {
        None
    } else if entity.info == i {
        Some(with(w, e, FileEntity { info: n, ..entity }))
    } else {
        Some(w)
    }
}

/// The infos from `start` up to `end`, one after the other.
pub open spec fn relocate_run(v: ArchiveView, start: u32, end: int) -> Option<ArchiveView>
    decreases end - start,
{
    if end <= start {
        Some(v)
    } else {
        match relocate_run(v, start, end - 1) {
            Some(w) => relocate(w, (end - 1) as u32),
            None => None,
        }
    }
}

/// The archive with a new file: its entity, path, data, descriptor and info.
#[verifier::opaque]
pub open spec fn add_file(v: ArchiveView, file: NewFile, group: u32) -> Option<ArchiveView> {
    let e = count::<FileEntity>(v) as u32;
    let p = count::<FilePath>(v) as u32;
    let f = count::<FileData>(v) as u32;
    let d = count::<FileDescriptor>(v) as u32;
    let i = count::<FileInfo>(v) as u32;
    let path = FilePath {
        path_and_entity: file.filepath.path_and_entity.with_data(e),
        ..file.filepath
    };
    if !room::<FileEntity>(v) || !v.can_insert_file_path(path) || !room::<FileData>(v) || !room::<
        FileDescriptor,
    >(v) || !room::<FileInfo>(v) {
        None
    } else {
        let v1 = pushed(v, FileEntity { package_or_group: group, info: i });
        let v2 = v1.insert_file_path(path);
        let v3 = pushed(v2, FileData::unshared(file.size, 0));
        let v4 = pushed(
            v3,
            FileDescriptor { group, file_data: f, load_method: FileLoadMethod::Owned(0).raw() },
        );
        Some(
            pushed(
                v4,
                FileInfo {
                    path: p,
                    entity: e,
                    desc: d,
                    flags: FileInfoFlags { bits: INFO_IS_GRAPHICS_ARCHIVE },
                },
            ),
        )
    }
}

/// The first `n` files, one after the other.
pub open spec fn add_all(v: ArchiveView, files: Seq<NewFile>, n: int, group: u32) -> Option<ArchiveView>
    decreases n,
{
    if n <= 0 {
        Some(v)
    } else {
        match add_all(v, files, n - 1, group) {
            Some(w) => add_file(w, files[n - 1], group),
            None => None,
        }
    }
}

/// The archive in which package `p` has a new run of infos: copies of those that it had, and then
/// those of the new files.
pub open spec fn extend_package(v: ArchiveView, p: u32, files: Seq<NewFile>) -> Option<ArchiveView> {
    let package = at::<FilePackage>(v, p);
    let group = package.spec_data_group();
    let end = package.info_start + package.info_count;
    if !has_run::<FileInfo>(v, package.info_start, package.info_count) || !holds::<FileGroup>(
        v,
        group,
    ) || package.info_count + files.len() > u32::MAX {
        None
    } else {
        match relocate_run(v, package.info_start, end) {
            Some(w) => match add_all(w, files, files.len() as int, group) {
                Some(x) => Some(
                    with(
                        x,
                        p,
                        FilePackage {
                            info_start: count::<FileInfo>(v) as u32,
                            info_count: (package.info_count + files.len()) as u32,
                            ..at::<FilePackage>(x, p)
                        },
                    ),
                ),
                None => None,
            },
            None => None,
        }
    }
}

/// The archive after each of the first `n` groups of files was added to its package. Groups whose
/// package the archive does not have are left out.
pub open spec fn extend_packages(v: ArchiveView, groups: Groups, n: int) -> Option<ArchiveView>
    decreases n,
{
    if n <= 0 {
        Some(v)
    } else {
        match extend_packages(v, groups, n - 1) {
            Some(w) => match w.find_file_package(groups[n - 1].0) {
                Some(p) => extend_package(w, p, groups[n - 1].1),
                None => Some(w),
            },
            None => None,
        }
    }
}

/// The archive after these files were added, each to the package next to it.
pub open spec fn add_files(v: ArchiveView, files: Seq<(NewFile, Option<Hash40>)>) -> Option<ArchiveView> {
    match register_all(
        Registering { archive: v, groups: Seq::empty() },
        files,
        files.len() as int,
    ) {
        Some(s) => extend_packages(s.archive, s.groups, s.groups.len() as int),
        None => None,
    }
}

proof fn lemma_register_all_fails(
    s: Registering,
    files: Seq<(NewFile, Option<Hash40>)>,
    a: int,
    b: int,
)
    requires
        0 <= a <= b,
        register_all(s, files, a) is None,
    ensures
        register_all(s, files, b) is None,
    decreases b,
{
    if a < b {
        lemma_register_all_fails(s, files, a, b - 1);
    }
}

proof fn lemma_relocate_run_fails(v: ArchiveView, start: u32, a: int, b: int)
    requires
        start <= a <= b,
        relocate_run(v, start, a) is None,
    ensures
        relocate_run(v, start, b) is None,
    decreases b,
{
    if a < b {
        lemma_relocate_run_fails(v, start, a, b - 1);
    }
}

proof fn lemma_add_all_fails(v: ArchiveView, files: Seq<NewFile>, a: int, b: int, group: u32)
    requires
        0 <= a <= b,
        add_all(v, files, a, group) is None,
    ensures
        add_all(v, files, b, group) is None,
    decreases b,
{
    if a < b {
        lemma_add_all_fails(v, files, a, b - 1, group);
    }
}

proof fn lemma_extend_packages_fails(v: ArchiveView, groups: Groups, a: int, b: int)
    requires
        0 <= a <= b,
        extend_packages(v, groups, a) is None,
    ensures
        extend_packages(v, groups, b) is None,
    decreases b,
{
    if a < b {
        lemma_extend_packages_fails(v, groups, a, b - 1);
    }
}

pub(crate) proof fn lemma_group_position(groups: Groups, package: Hash40)
    ensures
        0 <= group_position(groups, package) <= groups.len(),
        group_position(groups, package) < groups.len() ==> groups[group_position(
            groups,
            package,
        )].0 == package,
        forall|j: int| 0 <= j < group_position(groups, package) ==> (#[trigger] groups[j]).0
            != package,
    decreases groups.len(),
{
    if groups.len() > 0 && groups[0].0 != package {
        let rest = groups.drop_first();
        lemma_group_position(rest, package);
        assert forall|j: int| 0 <= j < group_position(groups, package) implies (#[trigger] groups[j]).0
            != package by {
            if j > 0 {
                assert(groups[j] == rest[j - 1]);
            }
        }
    }
}

/// New files that are waiting to be added to their packages.
struct Waiting {
    groups: Vec<(Hash40, Vec<NewFile>)>,
}

impl Waiting {
    spec fn view(&self) -> Groups {
        self.groups@.map_values(|g: (Hash40, Vec<NewFile>)| (g.0, g.1@))
    }

    fn add(&mut self, package: Hash40, file: NewFile)
        ensures
            final(self)@ == grouped(old(self)@, package, file),
    {
        let n: usize = self.groups.len();
        let mut g: usize = 0;
        proof {
            lemma_group_position(self@, package);
        }
        while g < n && self.groups[g].0 != package
            invariant
                self@ == old(self)@,
                n == self.groups@.len(),
                g <= n,
                forall|j: int| 0 <= j < g ==> (#[trigger] self@[j]).0 != package,
            decreases n - g,
        {
            proof {
                assert(self@[g as int].0 == self.groups@[g as int].0);
            }
            g += 1;
        }
        proof {
            if g < n {
                assert(self@[g as int].0 == self.groups@[g as int].0);
            }
            assert(g == group_position(self@, package));
        }
        if g < n {
            self.groups[g].1.push(file);
            proof {
                assert(self@ =~= grouped(old(self)@, package, file));
            }
        } else {
            let mut files: Vec<NewFile> = Vec::new();
            files.push(file);
            self.groups.push((package, files));
            proof {
                assert(self@.last().1 =~= seq![file]);
                assert(self@ =~= grouped(old(self)@, package, file));
            }
        }
    }

    fn register(&mut self, archive: &mut Archive, file: NewFile, package: Option<Hash40>) -> (r: bool)
        requires
            old(archive).wf(),
        ensures
            final(archive).wf(),
            r == (register(
                Registering { archive: old(archive)@, groups: old(self)@ },
                file,
                package,
            ) is Some),
            r ==> register(
                Registering { archive: old(archive)@, groups: old(self)@ },
                file,
                package,
            ) == Some(Registering { archive: final(archive)@, groups: final(self)@ }),
    {
        proof {
            reveal(register);
        }
        if archive.lookup_file_path(file.filepath.path()).is_some() {
            return true;
        }
        let Some(package) = package else {
            return true;
        };
        let path = SearchPath::from_file_path(&file.filepath);
        let Some(link) = archive.try_insert_search_path(path) else {
            return false;
        };
        let f: u32 = match archive.lookup_search_folder(path.parent()) {
            Some(folder) => folder.index(),
            None => {
                return true;
            },
        };
        if !append_to_folder(archive, f, link) {
            return false;
        }
        self.add(package, file);
        true
    }
}

fn exec_relocate(archive: &mut Archive, i: u32) -> (r: bool)
    requires
        old(archive).wf(),
    ensures
        final(archive).wf(),
        r == (relocate(old(archive)@, i) is Some),
        r ==> relocate(old(archive)@, i) == Some(final(archive)@),
{
    proof {
        reveal(relocate);
    }
    let Some(info) = archive.read::<FileInfo>(i) else {
        return false;
    };
    let Some(n) = archive.try_push(info) else {
        return false;
    };
    let Some(path) = archive.read::<FilePath>(info.path) else {
        return false;
    };
    let e: u32 = path.path_and_entity.data();
    let Some(mut entity) = archive.read::<FileEntity>(e) else {
        return false;
    };
    let Some(_loaded_by) = archive.read::<FileInfo>(entity.info) else {
        return false;
    };
    if entity.info == i {
        entity.set_info(n);
        archive.write(e, entity);
    }
    true
}

fn exec_add_file(archive: &mut Archive, file: NewFile, group: u32) -> (r: bool)
    requires
        old(archive).wf(),
    ensures
        final(archive).wf(),
        r == (add_file(old(archive)@, file, group) is Some),
        r ==> add_file(old(archive)@, file, group) == Some(final(archive)@),
{
    proof {
        reveal(add_file);
    }
    let ghost v = archive@;
    let infos: usize = archive.num::<FileInfo>();
    if infos >= 0xFFFF_FFFF {
        return false;
    }
    let Some(e) = archive.try_push(FileEntity::new(group, infos as u32)) else {
        return false;
    };
    let mut path = file.filepath;
    path.path_and_entity.set_data(e);
    let Some(p) = archive.try_insert_file_path(path) else {
        return false;
    };
    let Some(f) = archive.try_push(FileData::new_for_unsharing(file.size, 0)) else {
        return false;
    };
    let Some(d) = archive.try_push(FileDescriptor::new(group, f, FileLoadMethod::Owned(0))) else {
        return false;
    };
    let _i = archive.push(
        FileInfo::new(p, e, d, FileInfoFlags::from_bits_retain(INFO_IS_GRAPHICS_ARCHIVE)),
    );
    true
}

proof fn lemma_relocate_counts(v: ArchiveView, i: u32)
    ensures
        relocate(v, i) matches Some(w) ==> count::<FilePackage>(w) == count::<FilePackage>(v)
            && count::<FileInfo>(w) == count::<FileInfo>(v) + 1 && w.resource.file_package
            == v.resource.file_package,
{
    reveal(relocate);
}

proof fn lemma_add_file_counts(v: ArchiveView, file: NewFile, group: u32)
    ensures
        add_file(v, file, group) matches Some(w) ==> w.resource.file_package
            == v.resource.file_package,
{
    reveal(add_file);
}

/// Gives package `p` a new run of infos.
fn exec_extend_package(archive: &mut Archive, p: u32, files: &Vec<NewFile>) -> (r: bool)
    requires
        old(archive).wf(),
        holds::<FilePackage>(old(archive)@, p),
    ensures
        final(archive).wf(),
        r == (extend_package(old(archive)@, p, files@) is Some),
        r ==> extend_package(old(archive)@, p, files@) == Some(final(archive)@),
{
    let ghost v = archive@;
    let Some(package) = archive.read::<FilePackage>(p) else {
        return false;
    };
    let (start, end): (u32, u32) = match archive.get_file_info_slice(
        package.info_start,
        package.info_count,
    ) {
        Some(slice) => slice.range(),
        None => {
            return false;
        },
    };
    let group: u32 = package.path_and_group.data();
    let Some(_group) = archive.read::<FileGroup>(group) else {
        return false;
    };
    if files.len() > 0xFFFF_FFFF || files.len() as u64 + package.info_count as u64 > 0xFFFF_FFFF {
        return false;
    }
    proof {
        law_stored(v, 0, at::<FileInfo>(v, 0));
    }
    let new_start: u32 = archive.num::<FileInfo>() as u32;
    let new_count: u32 = package.info_count + files.len() as u32;
    let mut i: u32 = start;
    while i < end
        invariant
            start <= i <= end,
            archive.wf(),
            archive@.resource.file_package == v.resource.file_package,
            relocate_run(v, start, i as int) == Some(archive@),
            relocate_run(v, start, end as int) is None ==> extend_package(v, p, files@) is None,
            v == old(archive)@,
        decreases end - i,
    {
        proof {
            lemma_relocate_counts(archive@, i);
        }
        if !exec_relocate(archive, i) {
            proof {
                lemma_relocate_run_fails(v, start, i + 1, end as int);
            }
            return false;
        }
        i += 1;
    }
    let ghost w = archive@;
    let n: usize = files.len();
    let mut j: usize = 0;
    while j < n
        invariant
            n == files@.len(),
            j <= n,
            archive.wf(),
            archive@.resource.file_package == v.resource.file_package,
            add_all(w, files@, j as int, group) == Some(archive@),
            add_all(w, files@, n as int, group) is None ==> extend_package(v, p, files@) is None,
            v == old(archive)@,
        decreases n - j,
    {
        proof {
            lemma_add_file_counts(archive@, files@[j as int], group);
        }
        if !exec_add_file(archive, files[j], group) {
            proof {
                lemma_add_all_fails(w, files@, j + 1, n as int, group);
            }
            return false;
        }
        j += 1;
    }
    let mut package = package;
    package.set_info_range(new_start, new_count);
    archive.write(p, package);
    true
}

/// Adds files to the archive, each to the package next to it.
pub fn add_new_files(archive: &mut Archive, files: &Vec<(NewFile, Option<Hash40>)>) -> (r: bool)
    requires
        old(archive).wf(),
    ensures
        final(archive).wf(),
        r == (add_files(old(archive)@, files@) is Some),
        r ==> add_files(old(archive)@, files@) == Some(final(archive)@),
{
    let mut waiting = Waiting { groups: Vec::new() };
    let ghost s = Registering { archive: archive@, groups: waiting@ };
    proof {
        assert(waiting@ =~= Seq::empty());
    }
    let n: usize = files.len();
    let mut j: usize = 0;
    while j < n
        invariant
            s == (Registering { archive: old(archive)@, groups: Seq::empty() }),
            n == files@.len(),
            j <= n,
            archive.wf(),
            register_all(s, files@, j as int) == Some(
                Registering { archive: archive@, groups: waiting@ },
            ),
        decreases n - j,
    {
        if !waiting.register(archive, files[j].0, files[j].1) {
            proof {
                lemma_register_all_fails(s, files@, j + 1, n as int);
            }
            return false;
        }
        j += 1;
    }
    let ghost v = archive@;
    let ghost groups = waiting@;
    let m: usize = waiting.groups.len();
    let mut g: usize = 0;
    while g < m
        invariant
            groups == waiting@,
            m == waiting.groups@.len(),
            g <= m,
            archive.wf(),
            extend_packages(v, groups, g as int) == Some(archive@),
            add_files(old(archive)@, files@) == extend_packages(v, groups, m as int),
        decreases m - g,
    {
        proof {
            assert(groups[g as int] == (waiting.groups@[g as int].0, waiting.groups@[g as int].1@));
        }
        let package: Option<u32> = match archive.lookup_file_package(waiting.groups[g].0) {
            Some(found) => Some(found.index()),
            None => None,
        };
        if let Some(p) = package {
            if !exec_extend_package(archive, p, &waiting.groups[g].1) {
                proof {
                    lemma_extend_packages_fails(v, groups, g + 1, m as int);
                }
                return false;
            }
        }
        g += 1;
    }
    true
}

} // verus!
