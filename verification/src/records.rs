//! How the records of the archive are stored.

use crate::containers::Bucket;
use crate::data::{
    FileData, FileDescriptor, FileEntity, FileFlags, FileGroup, FileInfo, FileInfoFlags,
    FilePackage, FilePackageChild, FilePackageFlags, FilePath, HashWithData, SearchFolder,
    SearchPath, SearchPathLink, StreamData, StreamEntity, StreamFileFlags, StreamFolder, StreamPath,
};
use crate::words::Record;
use vstd::prelude::*;

verus! {

impl Record for crate::data::Hash {
    open spec fn width() -> nat {
        2
    }

    open spec fn words(self) -> Seq<u32> {
        seq![
            self.crc,
            self.len,
        ]
    }

    proof fn lemma_width(self) {
    }

    proof fn lemma_injective(self, other: Self) {
        assert(self.words()[0] == other.words()[0]);
        assert(self.words()[1] == other.words()[1]);
    }

    fn width_words() -> (r: usize) {
        2
    }

    fn read(w: &[u32], at: usize) -> (r: Self) {
        let r = crate::data::Hash {
            crc: w[at],
            len: w[at + 1],
        };
        proof {
            assert(r.words() =~= w@.subrange(at as int, at + 2));
        }
        r
    }

    fn write(&self, out: &mut Vec<u32>) {
        out.push(self.crc);
        out.push(self.len);
        proof {
            assert(out@ =~= old(out)@ + self.words());
        }
    }
}

impl Record for HashWithData {
    open spec fn width() -> nat {
        2
    }

    open spec fn words(self) -> Seq<u32> {
        seq![
            self.crc,
            self.len_and_data,
        ]
    }

    proof fn lemma_width(self) {
    }

    proof fn lemma_injective(self, other: Self) {
        assert(self.words()[0] == other.words()[0]);
        assert(self.words()[1] == other.words()[1]);
    }

    fn width_words() -> (r: usize) {
        2
    }

    fn read(w: &[u32], at: usize) -> (r: Self) {
        let r = HashWithData {
            crc: w[at],
            len_and_data: w[at + 1],
        };
        proof {
            assert(r.words() =~= w@.subrange(at as int, at + 2));
        }
        r
    }

    fn write(&self, out: &mut Vec<u32>) {
        out.push(self.crc);
        out.push(self.len_and_data);
        proof {
            assert(out@ =~= old(out)@ + self.words());
        }
    }
}

impl Record for FileData {
    open spec fn width() -> nat {
        4
    }

    open spec fn words(self) -> Seq<u32> {
        seq![
            self.in_group_offset,
            self.compressed_size,
            self.decompressed_size,
            self.flags.bits,
        ]
    }

    proof fn lemma_width(self) {
    }

    proof fn lemma_injective(self, other: Self) {
        assert(self.words()[0] == other.words()[0]);
        assert(self.words()[1] == other.words()[1]);
        assert(self.words()[2] == other.words()[2]);
        assert(self.words()[3] == other.words()[3]);
    }

    fn width_words() -> (r: usize) {
        4
    }

    fn read(w: &[u32], at: usize) -> (r: Self) {
        let r = FileData {
            in_group_offset: w[at],
            compressed_size: w[at + 1],
            decompressed_size: w[at + 2],
            flags: FileFlags { bits: w[at + 3] },
        };
        proof {
            assert(r.words() =~= w@.subrange(at as int, at + 4));
        }
        r
    }

    fn write(&self, out: &mut Vec<u32>) {
        out.push(self.in_group_offset);
        out.push(self.compressed_size);
        out.push(self.decompressed_size);
        out.push(self.flags.bits);
        proof {
            assert(out@ =~= old(out)@ + self.words());
        }
    }
}

impl Record for FileDescriptor {
    open spec fn width() -> nat {
        3
    }

    open spec fn words(self) -> Seq<u32> {
        seq![
            self.group,
            self.file_data,
            self.load_method,
        ]
    }

    proof fn lemma_width(self) {
    }

    proof fn lemma_injective(self, other: Self) {
        assert(self.words()[0] == other.words()[0]);
        assert(self.words()[1] == other.words()[1]);
        assert(self.words()[2] == other.words()[2]);
    }

    fn width_words() -> (r: usize) {
        3
    }

    fn read(w: &[u32], at: usize) -> (r: Self) {
        let r = FileDescriptor {
            group: w[at],
            file_data: w[at + 1],
            load_method: w[at + 2],
        };
        proof {
            assert(r.words() =~= w@.subrange(at as int, at + 3));
        }
        r
    }

    fn write(&self, out: &mut Vec<u32>) {
        out.push(self.group);
        out.push(self.file_data);
        out.push(self.load_method);
        proof {
            assert(out@ =~= old(out)@ + self.words());
        }
    }
}

impl Record for FileInfo {
    open spec fn width() -> nat {
        4
    }

    open spec fn words(self) -> Seq<u32> {
        seq![
            self.path,
            self.entity,
            self.desc,
            self.flags.bits,
        ]
    }

    proof fn lemma_width(self) {
    }

    proof fn lemma_injective(self, other: Self) {
        assert(self.words()[0] == other.words()[0]);
        assert(self.words()[1] == other.words()[1]);
        assert(self.words()[2] == other.words()[2]);
        assert(self.words()[3] == other.words()[3]);
    }

    fn width_words() -> (r: usize) {
        4
    }

    fn read(w: &[u32], at: usize) -> (r: Self) {
        let r = FileInfo {
            path: w[at],
            entity: w[at + 1],
            desc: w[at + 2],
            flags: FileInfoFlags { bits: w[at + 3] },
        };
        proof {
            assert(r.words() =~= w@.subrange(at as int, at + 4));
        }
        r
    }

    fn write(&self, out: &mut Vec<u32>) {
        out.push(self.path);
        out.push(self.entity);
        out.push(self.desc);
        out.push(self.flags.bits);
        proof {
            assert(out@ =~= old(out)@ + self.words());
        }
    }
}

impl Record for FileEntity {
    open spec fn width() -> nat {
        2
    }

    open spec fn words(self) -> Seq<u32> {
        seq![
            self.package_or_group,
            self.info,
        ]
    }

    proof fn lemma_width(self) {
    }

    proof fn lemma_injective(self, other: Self) {
        assert(self.words()[0] == other.words()[0]);
        assert(self.words()[1] == other.words()[1]);
    }

    fn width_words() -> (r: usize) {
        2
    }

    fn read(w: &[u32], at: usize) -> (r: Self) {
        let r = FileEntity {
            package_or_group: w[at],
            info: w[at + 1],
        };
        proof {
            assert(r.words() =~= w@.subrange(at as int, at + 2));
        }
        r
    }

    fn write(&self, out: &mut Vec<u32>) {
        out.push(self.package_or_group);
        out.push(self.info);
        proof {
            assert(out@ =~= old(out)@ + self.words());
        }
    }
}

impl Record for FilePath {
    open spec fn width() -> nat {
        8
    }

    open spec fn words(self) -> Seq<u32> {
        seq![
            self.path_and_entity.crc,
            self.path_and_entity.len_and_data,
            self.ext_and_version.crc,
            self.ext_and_version.len_and_data,
            self.parent.crc,
            self.parent.len,
            self.file_name.crc,
            self.file_name.len,
        ]
    }

    proof fn lemma_width(self) {
    }

    proof fn lemma_injective(self, other: Self) {
        assert(self.words()[0] == other.words()[0]);
        assert(self.words()[1] == other.words()[1]);
        assert(self.words()[2] == other.words()[2]);
        assert(self.words()[3] == other.words()[3]);
        assert(self.words()[4] == other.words()[4]);
        assert(self.words()[5] == other.words()[5]);
        assert(self.words()[6] == other.words()[6]);
        assert(self.words()[7] == other.words()[7]);
    }

    fn width_words() -> (r: usize) {
        8
    }

    fn read(w: &[u32], at: usize) -> (r: Self) {
        let r = FilePath {
            path_and_entity: HashWithData { crc: w[at], len_and_data: w[at + 1] },
            ext_and_version: HashWithData { crc: w[at + 2], len_and_data: w[at + 3] },
            parent: crate::data::Hash { crc: w[at + 4], len: w[at + 5] },
            file_name: crate::data::Hash { crc: w[at + 6], len: w[at + 7] },
        };
        proof {
            assert(r.words() =~= w@.subrange(at as int, at + 8));
        }
        r
    }

    fn write(&self, out: &mut Vec<u32>) {
        out.push(self.path_and_entity.crc);
        out.push(self.path_and_entity.len_and_data);
        out.push(self.ext_and_version.crc);
        out.push(self.ext_and_version.len_and_data);
        out.push(self.parent.crc);
        out.push(self.parent.len);
        out.push(self.file_name.crc);
        out.push(self.file_name.len);
        proof {
            assert(out@ =~= old(out)@ + self.words());
        }
    }
}

impl Record for FilePackage {
    open spec fn width() -> nat {
        13
    }

    open spec fn words(self) -> Seq<u32> {
        seq![
            self.path_and_group.crc,
            self.path_and_group.len_and_data,
            self.name.crc,
            self.name.len,
            self.parent.crc,
            self.parent.len,
            self.lifetime.crc,
            self.lifetime.len,
            self.info_start,
            self.info_count,
            self.child_start,
            self.child_count,
            self.flags.bits,
        ]
    }

    proof fn lemma_width(self) {
    }

    proof fn lemma_injective(self, other: Self) {
        assert(self.words()[0] == other.words()[0]);
        assert(self.words()[1] == other.words()[1]);
        assert(self.words()[2] == other.words()[2]);
        assert(self.words()[3] == other.words()[3]);
        assert(self.words()[4] == other.words()[4]);
        assert(self.words()[5] == other.words()[5]);
        assert(self.words()[6] == other.words()[6]);
        assert(self.words()[7] == other.words()[7]);
        assert(self.words()[8] == other.words()[8]);
        assert(self.words()[9] == other.words()[9]);
        assert(self.words()[10] == other.words()[10]);
        assert(self.words()[11] == other.words()[11]);
        assert(self.words()[12] == other.words()[12]);
    }

    fn width_words() -> (r: usize) {
        13
    }

    fn read(w: &[u32], at: usize) -> (r: Self) {
        let r = FilePackage {
            path_and_group: HashWithData { crc: w[at], len_and_data: w[at + 1] },
            name: crate::data::Hash { crc: w[at + 2], len: w[at + 3] },
            parent: crate::data::Hash { crc: w[at + 4], len: w[at + 5] },
            lifetime: crate::data::Hash { crc: w[at + 6], len: w[at + 7] },
            info_start: w[at + 8],
            info_count: w[at + 9],
            child_start: w[at + 10],
            child_count: w[at + 11],
            flags: FilePackageFlags { bits: w[at + 12] },
        };
        proof {
            assert(r.words() =~= w@.subrange(at as int, at + 13));
        }
        r
    }

    fn write(&self, out: &mut Vec<u32>) {
        out.push(self.path_and_group.crc);
        out.push(self.path_and_group.len_and_data);
        out.push(self.name.crc);
        out.push(self.name.len);
        out.push(self.parent.crc);
        out.push(self.parent.len);
        out.push(self.lifetime.crc);
        out.push(self.lifetime.len);
        out.push(self.info_start);
        out.push(self.info_count);
        out.push(self.child_start);
        out.push(self.child_count);
        out.push(self.flags.bits);
        proof {
            assert(out@ =~= old(out)@ + self.words());
        }
    }
}

impl Record for FilePackageChild {
    open spec fn width() -> nat {
        2
    }

    open spec fn words(self) -> Seq<u32> {
        seq![
            self.path_and_package.crc,
            self.path_and_package.len_and_data,
        ]
    }

    proof fn lemma_width(self) {
    }

    proof fn lemma_injective(self, other: Self) {
        assert(self.words()[0] == other.words()[0]);
        assert(self.words()[1] == other.words()[1]);
    }

    fn width_words() -> (r: usize) {
        2
    }

    fn read(w: &[u32], at: usize) -> (r: Self) {
        let r = FilePackageChild {
            path_and_package: HashWithData { crc: w[at], len_and_data: w[at + 1] },
        };
        proof {
            assert(r.words() =~= w@.subrange(at as int, at + 2));
        }
        r
    }

    fn write(&self, out: &mut Vec<u32>) {
        out.push(self.path_and_package.crc);
        out.push(self.path_and_package.len_and_data);
        proof {
            assert(out@ =~= old(out)@ + self.words());
        }
    }
}

impl Record for FileGroup {
    open spec fn width() -> nat {
        7
    }

    open spec fn words(self) -> Seq<u32> {
        seq![
            (self.archive_offset % 0x1_0000_0000) as u32,
            (self.archive_offset / 0x1_0000_0000) as u32,
            self.decompressed_size,
            self.compressed_size,
            self.child_start,
            self.child_count,
            self.redirection,
        ]
    }

    proof fn lemma_width(self) {
    }

    proof fn lemma_injective(self, other: Self) {
        assert(self.words()[0] == other.words()[0]);
        assert(self.words()[1] == other.words()[1]);
        assert(self.words()[2] == other.words()[2]);
        assert(self.words()[3] == other.words()[3]);
        assert(self.words()[4] == other.words()[4]);
        assert(self.words()[5] == other.words()[5]);
        assert(self.words()[6] == other.words()[6]);
    }

    fn width_words() -> (r: usize) {
        7
    }

    fn read(w: &[u32], at: usize) -> (r: Self) {
        let r = FileGroup {
            archive_offset: w[at] as u64 + w[at + 1] as u64 * 0x1_0000_0000,
            decompressed_size: w[at + 2],
            compressed_size: w[at + 3],
            child_start: w[at + 4],
            child_count: w[at + 5],
            redirection: w[at + 6],
        };
        proof {
            assert(r.words() =~= w@.subrange(at as int, at + 7));
        }
        r
    }

    fn write(&self, out: &mut Vec<u32>) {
        out.push((self.archive_offset % 0x1_0000_0000) as u32);
        out.push((self.archive_offset / 0x1_0000_0000) as u32);
        out.push(self.decompressed_size);
        out.push(self.compressed_size);
        out.push(self.child_start);
        out.push(self.child_count);
        out.push(self.redirection);
        proof {
            assert(out@ =~= old(out)@ + self.words());
        }
    }
}

impl Record for StreamData {
    open spec fn width() -> nat {
        4
    }

    open spec fn words(self) -> Seq<u32> {
        seq![
            (self.size % 0x1_0000_0000) as u32,
            (self.size / 0x1_0000_0000) as u32,
            (self.offset % 0x1_0000_0000) as u32,
            (self.offset / 0x1_0000_0000) as u32,
        ]
    }

    proof fn lemma_width(self) {
    }

    proof fn lemma_injective(self, other: Self) {
        assert(self.words()[0] == other.words()[0]);
        assert(self.words()[1] == other.words()[1]);
        assert(self.words()[2] == other.words()[2]);
        assert(self.words()[3] == other.words()[3]);
    }

    fn width_words() -> (r: usize) {
        4
    }

    fn read(w: &[u32], at: usize) -> (r: Self) {
        let r = StreamData {
            size: w[at] as u64 + w[at + 1] as u64 * 0x1_0000_0000,
            offset: w[at + 2] as u64 + w[at + 3] as u64 * 0x1_0000_0000,
        };
        proof {
            assert(r.words() =~= w@.subrange(at as int, at + 4));
        }
        r
    }

    fn write(&self, out: &mut Vec<u32>) {
        out.push((self.size % 0x1_0000_0000) as u32);
        out.push((self.size / 0x1_0000_0000) as u32);
        out.push((self.offset % 0x1_0000_0000) as u32);
        out.push((self.offset / 0x1_0000_0000) as u32);
        proof {
            assert(out@ =~= old(out)@ + self.words());
        }
    }
}

impl Record for StreamEntity {
    open spec fn width() -> nat {
        1
    }

    open spec fn words(self) -> Seq<u32> {
        seq![
            self.stream_data,
        ]
    }

    proof fn lemma_width(self) {
    }

    proof fn lemma_injective(self, other: Self) {
        assert(self.words()[0] == self.stream_data && other.words()[0] == other.stream_data);
    }

    fn width_words() -> (r: usize) {
        1
    }

    fn read(w: &[u32], at: usize) -> (r: Self) {
        let r = StreamEntity {
            stream_data: w[at],
        };
        proof {
            assert(r.words() =~= w@.subrange(at as int, at + 1));
        }
        r
    }

    fn write(&self, out: &mut Vec<u32>) {
        out.push(self.stream_data);
        proof {
            assert(out@ =~= old(out)@ + self.words());
        }
    }
}

impl Record for StreamFolder {
    open spec fn width() -> nat {
        3
    }

    open spec fn words(self) -> Seq<u32> {
        seq![
            self.name_and_child_count.crc,
            self.name_and_child_count.len_and_data,
            self.child_start_index,
        ]
    }

    proof fn lemma_width(self) {
    }

    proof fn lemma_injective(self, other: Self) {
        assert(self.words()[0] == other.words()[0]);
        assert(self.words()[1] == other.words()[1]);
        assert(self.words()[2] == other.words()[2]);
    }

    fn width_words() -> (r: usize) {
        3
    }

    fn read(w: &[u32], at: usize) -> (r: Self) {
        let r = StreamFolder {
            name_and_child_count: HashWithData { crc: w[at], len_and_data: w[at + 1] },
            child_start_index: w[at + 2],
        };
        proof {
            assert(r.words() =~= w@.subrange(at as int, at + 3));
        }
        r
    }

    fn write(&self, out: &mut Vec<u32>) {
        out.push(self.name_and_child_count.crc);
        out.push(self.name_and_child_count.len_and_data);
        out.push(self.child_start_index);
        proof {
            assert(out@ =~= old(out)@ + self.words());
        }
    }
}

impl Record for StreamPath {
    open spec fn width() -> nat {
        3
    }

    open spec fn words(self) -> Seq<u32> {
        seq![
            self.path_and_desc.crc,
            self.path_and_desc.len_and_data,
            self.flags.bits,
        ]
    }

    proof fn lemma_width(self) {
    }

    proof fn lemma_injective(self, other: Self) {
        assert(self.words()[0] == other.words()[0]);
        assert(self.words()[1] == other.words()[1]);
        assert(self.words()[2] == other.words()[2]);
    }

    fn width_words() -> (r: usize) {
        3
    }

    fn read(w: &[u32], at: usize) -> (r: Self) {
        let r = StreamPath {
            path_and_desc: HashWithData { crc: w[at], len_and_data: w[at + 1] },
            flags: StreamFileFlags { bits: w[at + 2] },
        };
        proof {
            assert(r.words() =~= w@.subrange(at as int, at + 3));
        }
        r
    }

    fn write(&self, out: &mut Vec<u32>) {
        out.push(self.path_and_desc.crc);
        out.push(self.path_and_desc.len_and_data);
        out.push(self.flags.bits);
        proof {
            assert(out@ =~= old(out)@ + self.words());
        }
    }
}

impl Record for SearchFolder {
    open spec fn width() -> nat {
        8
    }

    open spec fn words(self) -> Seq<u32> {
        seq![
            self.path_and_folder_count.crc,
            self.path_and_folder_count.len_and_data,
            self.parent_and_file_count.crc,
            self.parent_and_file_count.len_and_data,
            self.name.crc,
            self.name.len,
            self.first_child_index,
            self.padding,
        ]
    }

    proof fn lemma_width(self) {
    }

    proof fn lemma_injective(self, other: Self) {
        assert(self.words()[0] == other.words()[0]);
        assert(self.words()[1] == other.words()[1]);
        assert(self.words()[2] == other.words()[2]);
        assert(self.words()[3] == other.words()[3]);
        assert(self.words()[4] == other.words()[4]);
        assert(self.words()[5] == other.words()[5]);
        assert(self.words()[6] == other.words()[6]);
        assert(self.words()[7] == other.words()[7]);
    }

    fn width_words() -> (r: usize) {
        8
    }

    fn read(w: &[u32], at: usize) -> (r: Self) {
        let r = SearchFolder {
            path_and_folder_count: HashWithData { crc: w[at], len_and_data: w[at + 1] },
            parent_and_file_count: HashWithData { crc: w[at + 2], len_and_data: w[at + 3] },
            name: crate::data::Hash { crc: w[at + 4], len: w[at + 5] },
            first_child_index: w[at + 6],
            padding: w[at + 7],
        };
        proof {
            assert(r.words() =~= w@.subrange(at as int, at + 8));
        }
        r
    }

    fn write(&self, out: &mut Vec<u32>) {
        out.push(self.path_and_folder_count.crc);
        out.push(self.path_and_folder_count.len_and_data);
        out.push(self.parent_and_file_count.crc);
        out.push(self.parent_and_file_count.len_and_data);
        out.push(self.name.crc);
        out.push(self.name.len);
        out.push(self.first_child_index);
        out.push(self.padding);
        proof {
            assert(out@ =~= old(out)@ + self.words());
        }
    }
}

impl Record for SearchPath {
    open spec fn width() -> nat {
        8
    }

    open spec fn words(self) -> Seq<u32> {
        seq![
            self.path_and_next_index.crc,
            self.path_and_next_index.len_and_data,
            self.parent_and_is_folder.crc,
            self.parent_and_is_folder.len_and_data,
            self.name.crc,
            self.name.len,
            self.extension.crc,
            self.extension.len,
        ]
    }

    proof fn lemma_width(self) {
    }

    proof fn lemma_injective(self, other: Self) {
        assert(self.words()[0] == other.words()[0]);
        assert(self.words()[1] == other.words()[1]);
        assert(self.words()[2] == other.words()[2]);
        assert(self.words()[3] == other.words()[3]);
        assert(self.words()[4] == other.words()[4]);
        assert(self.words()[5] == other.words()[5]);
        assert(self.words()[6] == other.words()[6]);
        assert(self.words()[7] == other.words()[7]);
    }

    fn width_words() -> (r: usize) {
        8
    }

    fn read(w: &[u32], at: usize) -> (r: Self) {
        let r = SearchPath {
            path_and_next_index: HashWithData { crc: w[at], len_and_data: w[at + 1] },
            parent_and_is_folder: HashWithData { crc: w[at + 2], len_and_data: w[at + 3] },
            name: crate::data::Hash { crc: w[at + 4], len: w[at + 5] },
            extension: crate::data::Hash { crc: w[at + 6], len: w[at + 7] },
        };
        proof {
            assert(r.words() =~= w@.subrange(at as int, at + 8));
        }
        r
    }

    fn write(&self, out: &mut Vec<u32>) {
        out.push(self.path_and_next_index.crc);
        out.push(self.path_and_next_index.len_and_data);
        out.push(self.parent_and_is_folder.crc);
        out.push(self.parent_and_is_folder.len_and_data);
        out.push(self.name.crc);
        out.push(self.name.len);
        out.push(self.extension.crc);
        out.push(self.extension.len);
        proof {
            assert(out@ =~= old(out)@ + self.words());
        }
    }
}

impl Record for SearchPathLink {
    open spec fn width() -> nat {
        1
    }

    open spec fn words(self) -> Seq<u32> {
        seq![
            self.index,
        ]
    }

    proof fn lemma_width(self) {
    }

    proof fn lemma_injective(self, other: Self) {
        assert(self.words()[0] == self.index && other.words()[0] == other.index);
    }

    fn width_words() -> (r: usize) {
        1
    }

    fn read(w: &[u32], at: usize) -> (r: Self) {
        let r = SearchPathLink {
            index: w[at],
        };
        proof {
            assert(r.words() =~= w@.subrange(at as int, at + 1));
        }
        r
    }

    fn write(&self, out: &mut Vec<u32>) {
        out.push(self.index);
        proof {
            assert(out@ =~= old(out)@ + self.words());
        }
    }
}

impl Record for Bucket {
    open spec fn width() -> nat {
        2
    }

    open spec fn words(self) -> Seq<u32> {
        seq![
            self.start,
            self.count,
        ]
    }

    proof fn lemma_width(self) {
    }

    proof fn lemma_injective(self, other: Self) {
        assert(self.words()[0] == other.words()[0]);
        assert(self.words()[1] == other.words()[1]);
    }

    fn width_words() -> (r: usize) {
        2
    }

    fn read(w: &[u32], at: usize) -> (r: Self) {
        let r = Bucket {
            start: w[at],
            count: w[at + 1],
        };
        proof {
            assert(r.words() =~= w@.subrange(at as int, at + 2));
        }
        r
    }

    fn write(&self, out: &mut Vec<u32>) {
        out.push(self.start);
        out.push(self.count);
        proof {
            assert(out@ =~= old(out)@ + self.words());
        }
    }
}

} // verus!
