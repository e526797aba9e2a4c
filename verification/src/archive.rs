//! The archive's tables, and how they are read from and written to bytes.

use crate::containers::{
    law_bucket_merged, law_lookup_merged, sorted, BucketLookup, BucketView, IndexLookup, LookupView, Table,
    TableView,
};
use crate::data::{
    FileData, FileDescriptor, FileEntity, FileGroup, FileInfo, FilePackage, FilePackageChild,
    FilePath, SearchFolder, SearchPath, SearchPathLink, StreamData, StreamEntity, StreamFolder,
    StreamPath,
};
use crate::words::{
    bytes_to_words, cat, flat, law_bytes_words_round_trip, law_flat_injective, law_words_bytes_round_trip,
    lemma_bytes_to_words_prefix, lemma_cat_index, lemma_cat_injective, lemma_cat_prefix, lemma_cat_push,
    lemma_flat_len, lemma_words_to_bytes_concat, read_words, tail_bytes, words_to_bytes, write_words,
    Record,
};
use vstd::prelude::*;

verus! {

/// What the archive starts with.
pub const ARCHIVE_MAGIC: u64 = 0xABCD_EF98_7654_3210;

/// Where the sections of the archive are.
#[derive(Copy, Clone, Debug, PartialEq, Eq, Structural)]
pub struct ArchiveMetadata {
    pub magic: u64,
    pub stream_data_offset: u64,
    pub file_data_offset: u64,
    pub shared_file_data_offset: u64,
    pub resource_table_offset: u64,
    pub search_table_offset: u64,
    pub unknown_table_offset: u64,
}

/// The 64-bit integer that two words spell, the lower one first.
pub open spec fn wide(lo: u32, hi: u32) -> u64 {
    (lo + hi * 0x1_0000_0000) as u64
}

fn make_wide(lo: u32, hi: u32) -> (r: u64)
    ensures
        r == wide(lo, hi),
{
    lo as u64 + hi as u64 * 0x1_0000_0000
}

impl ArchiveMetadata {
    /// Reads the metadata. It is 56 bytes long and starts with the magic.
    pub fn from_bytes(bytes: &[u8]) -> (r: Option<ArchiveMetadata>)
        ensures
            r is Some <==> bytes@.len() == 0x38 && wide(
                bytes_to_words(bytes@)[0],
                bytes_to_words(bytes@)[1],
            ) == ARCHIVE_MAGIC,
            r matches Some(m) ==> ({
                let w = bytes_to_words(bytes@);
                m == ArchiveMetadata {
                    magic: wide(w[0], w[1]),
                    stream_data_offset: wide(w[2], w[3]),
                    file_data_offset: wide(w[4], w[5]),
                    shared_file_data_offset: wide(w[6], w[7]),
                    resource_table_offset: wide(w[8], w[9]),
                    search_table_offset: wide(w[10], w[11]),
                    unknown_table_offset: wide(w[12], w[13]),
                }
            }),
    {
        if bytes.len() != 0x38 {
            return None;
        }
        let w = read_words(bytes);
        if make_wide(w[0], w[1]) != ARCHIVE_MAGIC {
            return None;
        }
        Some(
            ArchiveMetadata {
                magic: make_wide(w[0], w[1]),
                stream_data_offset: make_wide(w[2], w[3]),
                file_data_offset: make_wide(w[4], w[5]),
                shared_file_data_offset: make_wide(w[6], w[7]),
                resource_table_offset: make_wide(w[8], w[9]),
                search_table_offset: make_wide(w[10], w[11]),
                unknown_table_offset: make_wide(w[12], w[13]),
            },
        )
    }
}

/// Words of the search section's header.
pub const SEARCH_HEADER_WORDS: usize = 5;

/// Words of the resource section's header.
pub const RESOURCE_HEADER_WORDS: usize = 68;

/// Header of the search section: the section's size, a padding word, and the number of folders, path
/// links and paths.
pub struct SearchTableHeader {
    words: Vec<u32>,
}

/// Header of the resource section.
///
/// The words of interest are the section's size (0), the number of file paths (1), entities (2),
/// packages (3), package data groups (4), package children (5), package infos (6), package
/// descriptors (7), package data (8), info groups (9), group infos (10), versioned groups (16),
/// versioned infos (19), descriptors (20) and data (21), and of stream folders (64), paths (65),
/// entities (66) and data (67).
pub struct ResourceTableHeader {
    words: Vec<u32>,
}

impl View for SearchTableHeader {
    type V = Seq<u32>;

    closed spec fn view(&self) -> Seq<u32> {
        self.words@
    }
}

impl View for ResourceTableHeader {
    type V = Seq<u32>;

    closed spec fn view(&self) -> Seq<u32> {
        self.words@
    }
}

/// Copies the first words of a section.
fn take_words(w: &[u32], n: usize) -> (r: Vec<u32>)
    requires
        n <= w@.len(),
    ensures
        r@ == w@.take(n as int),
{
    let mut r: Vec<u32> = Vec::new();
    let mut i: usize = 0;
    while i < n
        invariant
            i <= n <= w@.len(),
            r@ =~= w@.take(i as int),
        decreases n - i,
    {
        r.push(w[i]);
        i += 1;
    }
    r
}

/// Copies the bytes behind the first `n` words.
fn bytes_behind(b: &[u8], n: usize) -> (r: Vec<u8>)
    requires
        4 * n <= b@.len(),
    ensures
        r@ == b@.skip(4 * n),
{
    let len: usize = b.len();
    let mut r: Vec<u8> = Vec::new();
    let mut i: usize = 4 * n;
    while i < len
        invariant
            4 * n <= i <= len == b@.len(),
            r@ =~= b@.subrange(4 * n, i as int),
        decreases len - i,
    {
        r.push(b[i]);
        i += 1;
    }
    r
}

fn append_words(out: &mut Vec<u32>, w: &Vec<u32>)
    ensures
        final(out)@ == old(out)@ + w@,
{
    let mut i: usize = 0;
    while i < w.len()
        invariant
            i <= w@.len(),
            out@ =~= old(out)@ + w@.take(i as int),
        decreases w@.len() - i,
    {
        out.push(w[i]);
        i += 1;
    }
    proof {
        assert(w@.take(w@.len() as int) =~= w@);
    }
}

fn append_bytes(out: &mut Vec<u8>, b: &Vec<u8>)
    ensures
        final(out)@ == old(out)@ + b@,
{
    let mut i: usize = 0;
    while i < b.len()
        invariant
            i <= b@.len(),
            out@ =~= old(out)@ + b@.take(i as int),
        decreases b@.len() - i,
    {
        out.push(b[i]);
        i += 1;
    }
    proof {
        assert(b@.take(b@.len() as int) =~= b@);
    }
}

impl<T> TableView<T> {
    /// The table with everything in its fixed part.
    pub open spec fn merged(self) -> TableView<T> {
        TableView { fixed: self.items(), dynamic: Seq::empty() }
    }
}

/// What [`SearchTables`] hold.
pub struct SearchView {
    pub header: Seq<u32>,
    pub search_folder_lookup: LookupView,
    pub search_folder: TableView<SearchFolder>,
    pub search_path_lookup: LookupView,
    pub search_path_link: TableView<SearchPathLink>,
    pub search_path: TableView<SearchPath>,
    /// Bytes behind the tables.
    pub tail: Seq<u8>,
}

impl SearchView {
    /// The stored words of the fixed parts.
    pub open spec fn fixed_words(self) -> Seq<u32> {
        self.header + flat(self.search_folder_lookup.fixed) + flat(self.search_folder.fixed) + flat(
            self.search_path_lookup.fixed,
        ) + flat(self.search_path_link.fixed) + flat(self.search_path.fixed)
    }

    /// The stored bytes.
    pub open spec fn blob(self) -> Seq<u8> {
        words_to_bytes(self.fixed_words()) + self.tail
    }

    /// The fixed parts are as long as the header says.
    pub open spec fn shaped(self) -> bool {
        &&& self.header.len() == SEARCH_HEADER_WORDS
        &&& self.search_folder_lookup.fixed.len() == self.header[2]
        &&& self.search_folder.fixed.len() == self.header[2]
        &&& self.search_path_lookup.fixed.len() == self.header[3]
        &&& self.search_path_link.fixed.len() == self.header[3]
        &&& self.search_path.fixed.len() == self.header[4]
    }

    /// Nothing was added.
    pub open spec fn fresh(self) -> bool {
        &&& self.search_folder_lookup.dynamic == Map::<u64, u32>::empty()
        &&& self.search_folder.dynamic == Seq::<SearchFolder>::empty()
        &&& self.search_path_lookup.dynamic == Map::<u64, u32>::empty()
        &&& self.search_path_link.dynamic == Seq::<SearchPathLink>::empty()
        &&& self.search_path.dynamic == Seq::<SearchPath>::empty()
    }

    pub open spec fn wf(self) -> bool {
        &&& self.header.len() == SEARCH_HEADER_WORDS
        &&& self.search_folder_lookup.wf()
        &&& self.search_path_lookup.wf()
        &&& self.search_folder.len() <= u32::MAX
        &&& self.search_path_link.len() <= u32::MAX
        &&& self.search_path.len() <= u32::MAX
    }

    /// Words that the tables take up once everything is in the fixed parts.
    pub open spec fn total_words(self) -> int {
        SEARCH_HEADER_WORDS + 2 * self.search_folder_lookup.len() + 8 * self.search_folder.len() + 2
            * self.search_path_lookup.len() + self.search_path_link.len() + 8 * self.search_path.len()
    }

    /// The section's size can be stored.
    pub open spec fn serializable(self) -> bool {
        4 * self.total_words() <= u32::MAX
    }

    /// The tables with everything in the fixed parts and a header to match.
    pub open spec fn reserialized(self) -> SearchView {
        SearchView {
            header: self.header.update(0, (4 * self.total_words()) as u32).update(
                2,
                self.search_folder.len() as u32,
            ).update(3, self.search_path_link.len() as u32).update(
                4,
                self.search_path.len() as u32,
            ),
            search_folder_lookup: self.search_folder_lookup.merged(),
            search_folder: self.search_folder.merged(),
            search_path_lookup: self.search_path_lookup.merged(),
            search_path_link: self.search_path_link.merged(),
            search_path: self.search_path.merged(),
            tail: Seq::empty(),
        }
    }
}

/// Words that the tables of a search section with header `h` take up.
pub open spec fn search_words(h: Seq<u32>) -> int {
    SEARCH_HEADER_WORDS + 10 * h[2] + 3 * h[3] + 8 * h[4]
}

/// Are the bytes long enough for the tables that their header announces?
pub open spec fn search_fits(b: Seq<u8>) -> bool {
    let w = bytes_to_words(b);
    w.len() >= SEARCH_HEADER_WORDS && search_words(w) <= w.len()
}

/// The tables of the search section.
pub struct SearchTables {
    pub header: SearchTableHeader,
    pub search_folder_lookup: IndexLookup,
    pub search_folder: Table<SearchFolder>,
    pub search_path_lookup: IndexLookup,
    pub search_path_link: Table<SearchPathLink>,
    pub search_path: Table<SearchPath>,
    pub tail: Vec<u8>,
}

impl View for SearchTables {
    type V = SearchView;

    open spec fn view(&self) -> SearchView {
        SearchView {
            header: self.header@,
            search_folder_lookup: self.search_folder_lookup@,
            search_folder: self.search_folder@,
            search_path_lookup: self.search_path_lookup@,
            search_path_link: self.search_path_link@,
            search_path: self.search_path@,
            tail: self.tail@,
        }
    }
}

proof fn lemma_extend(w: Seq<u32>, a: int, b: int)
    requires
        0 <= a <= b <= w.len(),
    ensures
        w.subrange(0, a) + w.subrange(a, b) == w.subrange(0, b),
{
    assert(w.subrange(0, a) + w.subrange(a, b) =~= w.subrange(0, b));
}

proof fn lemma_cut<A>(a: Seq<A>, b: Seq<A>, c: Seq<A>)
    ensures
        a + (a + b + c).skip(a.len() as int) == a + b + c,
{
    assert(a + (a + b + c).skip(a.len() as int) =~= a + b + c);
}

/// The bytes behind the first `n` words, and these words, make up the bytes.
proof fn lemma_split_words(w: Seq<u32>, tail: Seq<u8>, n: int)
    requires
        0 <= n <= w.len(),
    ensures
        words_to_bytes(w.take(n)) + (words_to_bytes(w) + tail).skip(4 * n) == words_to_bytes(w)
            + tail,
{
    assert(w.take(n) + w.skip(n) =~= w);
    lemma_words_to_bytes_concat(w.take(n), w.skip(n));
    law_words_bytes_round_trip(w.take(n));
    lemma_cut(words_to_bytes(w.take(n)), words_to_bytes(w.skip(n)), tail);
}

/// Are the bytes long enough for the tables that their header announces?
pub fn search_bytes_fit(bytes: &[u8]) -> (r: bool)
    ensures
        r == search_fits(bytes@),
{
    let w = read_words(bytes);
    if w.len() < SEARCH_HEADER_WORDS {
        return false;
    }
    let need: u64 = 5 + 10 * w[2] as u64 + 3 * w[3] as u64 + 8 * w[4] as u64;
    need <= w.len() as u64
}

impl SearchTables {
    pub open spec fn wf(&self) -> bool {
        self@.wf()
    }

    /// Reads the tables from the bytes of the section.
    pub fn from_bytes(bytes: &[u8]) -> (r: SearchTables)
        requires
            search_fits(bytes@),
        ensures
            r@.blob() == bytes@,
            r@.shaped(),
            r@.fresh(),
    {
        let w = read_words(bytes);
        let len: usize = w.len();
        let header = SearchTableHeader { words: take_words(&w, SEARCH_HEADER_WORDS) };
        let folders: usize = w[2] as usize;
        let links: usize = w[3] as usize;
        let paths: usize = w[4] as usize;
        let c0: usize = SEARCH_HEADER_WORDS;
        let search_folder_lookup = IndexLookup::new(&w, c0, folders);
        let c1: usize = c0 + 2 * folders;
        let search_folder = Table::<SearchFolder>::new(&w, c1, folders);
        let c2: usize = c1 + 8 * folders;
        let search_path_lookup = IndexLookup::new(&w, c2, links);
        let c3: usize = c2 + 2 * links;
        let search_path_link = Table::<SearchPathLink>::new(&w, c3, links);
        let c4: usize = c3 + links;
        let search_path = Table::<SearchPath>::new(&w, c4, paths);
        let c5: usize = c4 + 8 * paths;
        let tail = bytes_behind(bytes, c5);
        let r = SearchTables {
            header,
            search_folder_lookup,
            search_folder,
            search_path_lookup,
            search_path_link,
            search_path,
            tail,
        };
        proof {
            assert(w@.subrange(0, c0 as int) =~= r.header@);
            lemma_extend(w@, c0 as int, c1 as int);
            lemma_extend(w@, c1 as int, c2 as int);
            lemma_extend(w@, c2 as int, c3 as int);
            lemma_extend(w@, c3 as int, c4 as int);
            lemma_extend(w@, c4 as int, c5 as int);
            assert(r@.fixed_words() == w@.subrange(0, c5 as int));
            assert(w@.take(c5 as int) =~= w@.subrange(0, c5 as int));
            lemma_split_words(w@, tail_bytes(bytes@), c5 as int);
            law_bytes_words_round_trip(bytes@);
        }
        r
    }

    /// Brings everything into the fixed parts and makes the header match.
    pub fn reserialize_internal(&mut self)
        requires
            old(self).wf(),
            old(self)@.serializable(),
        ensures
            final(self)@ == old(self)@.reserialized(),
    {
        proof {
            law_lookup_merged(self@.search_folder_lookup, 0);
            law_lookup_merged(self@.search_path_lookup, 0);
        }
        self.search_folder_lookup.merge();
        self.search_folder.merge();
        self.search_path_lookup.merge();
        self.search_path_link.merge();
        self.search_path.merge();
        let total: u32 = 5 + 2 * self.search_folder_lookup.fixed_len() as u32 + 8
            * self.search_folder.len() as u32 + 2 * self.search_path_lookup.fixed_len() as u32
            + self.search_path_link.len() as u32 + 8 * self.search_path.len() as u32;
        self.header.words.set(0, 4 * total);
        self.header.words.set(2, self.search_folder.len() as u32);
        self.header.words.set(3, self.search_path_link.len() as u32);
        self.header.words.set(4, self.search_path.len() as u32);
        self.tail = Vec::new();
    }

    /// The bytes of the section, as far as it is in the fixed parts.
    pub fn raw(&self) -> (r: Vec<u8>)
        ensures
            r@ == self@.blob(),
    {
        let mut out: Vec<u32> = Vec::new();
        append_words(&mut out, &self.header.words);
        self.search_folder_lookup.write_fixed(&mut out);
        self.search_folder.write_fixed(&mut out);
        self.search_path_lookup.write_fixed(&mut out);
        self.search_path_link.write_fixed(&mut out);
        self.search_path.write_fixed(&mut out);
        proof {
            assert(Seq::<u32>::empty() + self@.header =~= self@.header);
            assert(out@ == self@.fixed_words());
        }
        let mut r = write_words(&out);
        append_bytes(&mut r, &self.tail);
        r
    }

    /// Can the section's size be stored once everything is in the fixed parts?
    pub fn is_serializable(&self) -> (r: bool)
        requires
            self.wf(),
        ensures
            r == self@.serializable(),
    {
        let (Some(folder_hashes), Some(path_hashes)) = (
            self.search_folder_lookup.len(),
            self.search_path_lookup.len(),
        ) else {
            return false;
        };
        let total: u64 = 5 + 2 * folder_hashes as u64 + 8 * self.search_folder.len() as u64 + 2
            * path_hashes as u64 + self.search_path_link.len() as u64 + 8
            * self.search_path.len() as u64;
        4 * total <= 0xFFFF_FFFF
    }
}

/// What [`ResourceTables`] hold.
pub struct ResourceView {
    pub header: Seq<u32>,
    pub stream_folder: TableView<StreamFolder>,
    pub stream_path_lookup: LookupView,
    pub stream_path: TableView<StreamPath>,
    pub stream_entity: TableView<StreamEntity>,
    pub stream_data: TableView<StreamData>,
    pub file_path_lookup: BucketView,
    pub file_path: TableView<FilePath>,
    pub file_entity: TableView<FileEntity>,
    pub file_package_lookup: LookupView,
    pub file_package: TableView<FilePackage>,
    pub file_group: TableView<FileGroup>,
    pub file_package_child: TableView<FilePackageChild>,
    pub file_info: TableView<FileInfo>,
    pub file_desc: TableView<FileDescriptor>,
    pub file_data: TableView<FileData>,
    /// Bytes behind the tables.
    pub tail: Seq<u8>,
}

/// Number of file groups that a header announces.
pub open spec fn group_count(h: Seq<u32>) -> int {
    h[9] + h[4] + h[16]
}

/// Number of file infos that a header announces.
pub open spec fn info_count(h: Seq<u32>) -> int {
    h[6] + h[10] + h[19]
}

/// Number of file descriptors that a header announces.
pub open spec fn desc_count(h: Seq<u32>) -> int {
    h[7] + h[10] + h[20]
}

/// Number of file data that a header announces.
pub open spec fn data_count(h: Seq<u32>) -> int {
    h[8] + h[10] + h[21]
}

/// Words up to the counts of the file path lookup.
pub open spec fn stream_words(h: Seq<u32>) -> int {
    RESOURCE_HEADER_WORDS + 3 * h[64] + 5 * h[65] + h[66] + 4 * h[67]
}

/// Words of a resource section with header `h` and so many path hashes and buckets.
pub open spec fn resource_words(h: Seq<u32>, hashes: int, buckets: int) -> int {
    stream_words(h) + 2 + 2 * buckets + 2 * hashes + 8 * h[1] + 2 * h[2] + 15 * h[3] + 7 * group_count(h)
        + 2 * h[5] + 4 * info_count(h) + 3 * desc_count(h) + 4 * data_count(h)
}

/// Are there enough words for the tables that their header announces?
pub open spec fn resource_words_fit(w: Seq<u32>) -> bool {
    &&& w.len() >= RESOURCE_HEADER_WORDS
    &&& group_count(w) <= u32::MAX
    &&& info_count(w) <= u32::MAX
    &&& desc_count(w) <= u32::MAX
    &&& data_count(w) <= u32::MAX
    &&& stream_words(w) + 2 <= w.len()
    &&& resource_words(w, w[stream_words(w)] as int, w[stream_words(w) + 1] as int) <= w.len()
}

/// Are the bytes long enough for the tables that their header announces?
pub open spec fn resource_fits(b: Seq<u8>) -> bool {
    resource_words_fit(bytes_to_words(b))
}

impl ResourceView {
    /// The stored words of the fixed parts.
    pub open spec fn fixed_words(self) -> Seq<u32> {
        self.header + flat(self.stream_folder.fixed) + flat(self.stream_path_lookup.fixed)
            + flat(self.stream_path.fixed) + flat(self.stream_entity.fixed)
            + flat(self.stream_data.fixed) + self.file_path_lookup.fixed_words()
            + flat(self.file_path.fixed) + flat(self.file_entity.fixed)
            + flat(self.file_package_lookup.fixed) + flat(self.file_package.fixed)
            + flat(self.file_group.fixed) + flat(self.file_package_child.fixed)
            + flat(self.file_info.fixed) + flat(self.file_desc.fixed) + flat(self.file_data.fixed)
    }

    /// The stored bytes.
    pub open spec fn blob(self) -> Seq<u8> {
        words_to_bytes(self.fixed_words()) + self.tail
    }

    /// The fixed parts are as long as the header says.
    pub open spec fn shaped(self) -> bool {
        let h = self.header;
        &&& h.len() == RESOURCE_HEADER_WORDS
        &&& self.stream_folder.fixed.len() == h[64]
        &&& self.stream_path_lookup.fixed.len() == h[65]
        &&& self.stream_path.fixed.len() == h[65]
        &&& self.stream_entity.fixed.len() == h[66]
        &&& self.stream_data.fixed.len() == h[67]
        &&& self.file_path_lookup.hashes.len() <= u32::MAX
        &&& self.file_path_lookup.buckets.len() <= u32::MAX
        &&& self.file_path.fixed.len() == h[1]
        &&& self.file_entity.fixed.len() == h[2]
        &&& self.file_package_lookup.fixed.len() == h[3]
        &&& self.file_package.fixed.len() == h[3]
        &&& self.file_group.fixed.len() == group_count(h)
        &&& self.file_package_child.fixed.len() == h[5]
        &&& self.file_info.fixed.len() == info_count(h)
        &&& self.file_desc.fixed.len() == desc_count(h)
        &&& self.file_data.fixed.len() == data_count(h)
        &&& group_count(h) <= u32::MAX
        &&& info_count(h) <= u32::MAX
        &&& desc_count(h) <= u32::MAX
        &&& data_count(h) <= u32::MAX
    }

    /// Nothing was added.
    pub open spec fn fresh(self) -> bool {
        &&& self.stream_folder.dynamic == Seq::<StreamFolder>::empty()
        &&& self.stream_path_lookup.dynamic == Map::<u64, u32>::empty()
        &&& self.stream_path.dynamic == Seq::<StreamPath>::empty()
        &&& self.stream_entity.dynamic == Seq::<StreamEntity>::empty()
        &&& self.stream_data.dynamic == Seq::<StreamData>::empty()
        &&& self.file_path_lookup.dynamic == Seq::new(
            self.file_path_lookup.buckets.len(),
            |b: int| Map::<u64, u32>::empty(),
        )
        &&& self.file_path.dynamic == Seq::<FilePath>::empty()
        &&& self.file_entity.dynamic == Seq::<FileEntity>::empty()
        &&& self.file_package_lookup.dynamic == Map::<u64, u32>::empty()
        &&& self.file_package.dynamic == Seq::<FilePackage>::empty()
        &&& self.file_group.dynamic == Seq::<FileGroup>::empty()
        &&& self.file_package_child.dynamic == Seq::<FilePackageChild>::empty()
        &&& self.file_info.dynamic == Seq::<FileInfo>::empty()
        &&& self.file_desc.dynamic == Seq::<FileDescriptor>::empty()
        &&& self.file_data.dynamic == Seq::<FileData>::empty()
    }

    pub open spec fn wf(self) -> bool {
        &&& self.header.len() == RESOURCE_HEADER_WORDS
        &&& self.stream_folder.len() <= u32::MAX
        &&& self.stream_path_lookup.wf()
        &&& self.stream_path.len() <= u32::MAX
        &&& self.stream_entity.len() <= u32::MAX
        &&& self.stream_data.len() <= u32::MAX
        &&& self.file_path_lookup.wf()
        &&& self.file_path.len() <= u32::MAX
        &&& self.file_entity.len() <= u32::MAX
        &&& self.file_package_lookup.wf()
        &&& self.file_package.len() <= u32::MAX
        &&& self.file_group.len() <= u32::MAX
        &&& self.file_package_child.len() <= u32::MAX
        &&& self.file_info.len() <= u32::MAX
        &&& self.file_desc.len() <= u32::MAX
        &&& self.file_data.len() <= u32::MAX
        &&& self.file_group.len() >= self.header[9] + self.header[16]
        &&& self.file_info.len() >= self.header[10] + self.header[19]
        &&& self.file_desc.len() >= self.header[10] + self.header[20]
        &&& self.file_data.len() >= self.header[10] + self.header[21]
    }

    /// Number of entries of the file path lookup.
    pub open spec fn path_hash_count(self) -> nat {
        self.file_path_lookup.entries(self.file_path_lookup.buckets.len() as int).len()
    }

    /// Words that the tables take up once everything is in the fixed parts.
    pub open spec fn total_words(self) -> int {
        RESOURCE_HEADER_WORDS + 2 + 3 * self.stream_folder.len() + 2 * self.stream_path_lookup.len()
            + 3 * self.stream_path.len() + self.stream_entity.len() + 4 * self.stream_data.len()
            + 2 * self.file_path_lookup.buckets.len() + 2 * self.path_hash_count()
            + 8 * self.file_path.len() + 2 * self.file_entity.len()
            + 2 * self.file_package_lookup.len() + 13 * self.file_package.len()
            + 7 * self.file_group.len() + 2 * self.file_package_child.len()
            + 4 * self.file_info.len() + 3 * self.file_desc.len() + 4 * self.file_data.len()
    }

    /// The section's size can be stored.
    pub open spec fn serializable(self) -> bool {
        4 * self.total_words() <= u32::MAX
    }

    /// The header that matches the tables once everything is in the fixed parts. It goes on counting
    /// the stream tables as they were.
    pub open spec fn new_header(self) -> Seq<u32> {
        let h = self.header;
        h.update(0, (4 * self.total_words()) as u32).update(
            3,
            self.file_package.len() as u32,
        ).update(5, self.file_package_child.len() as u32).update(
            4,
            (self.file_group.len() - h[16] - h[9]) as u32,
        ).update(1, self.file_path.len() as u32).update(2, self.file_entity.len() as u32).update(
            6,
            (self.file_info.len() - h[19] - h[10]) as u32,
        ).update(7, (self.file_desc.len() - h[20] - h[10]) as u32).update(
            8,
            (self.file_data.len() - h[21] - h[10]) as u32,
        )
    }

    /// The tables with everything in the fixed parts and a header to match.
    pub open spec fn reserialized(self) -> ResourceView {
        ResourceView {
            header: self.new_header(),
            stream_folder: self.stream_folder.merged(),
            stream_path_lookup: self.stream_path_lookup.merged(),
            stream_path: self.stream_path.merged(),
            stream_entity: self.stream_entity.merged(),
            stream_data: self.stream_data.merged(),
            file_path_lookup: self.file_path_lookup.merged(),
            file_path: self.file_path.merged(),
            file_entity: self.file_entity.merged(),
            file_package_lookup: self.file_package_lookup.merged(),
            file_package: self.file_package.merged(),
            file_group: self.file_group.merged(),
            file_package_child: self.file_package_child.merged(),
            file_info: self.file_info.merged(),
            file_desc: self.file_desc.merged(),
            file_data: self.file_data.merged(),
            tail: Seq::empty(),
        }
    }
}

/// The tables of the resource section.
pub struct ResourceTables {
    pub header: ResourceTableHeader,
    pub stream_folder: Table<StreamFolder>,
    pub stream_path_lookup: IndexLookup,
    pub stream_path: Table<StreamPath>,
    pub stream_entity: Table<StreamEntity>,
    pub stream_data: Table<StreamData>,
    pub file_path_lookup: BucketLookup,
    pub file_path: Table<FilePath>,
    pub file_entity: Table<FileEntity>,
    pub file_package_lookup: IndexLookup,
    pub file_package: Table<FilePackage>,
    pub file_group: Table<FileGroup>,
    pub file_package_child: Table<FilePackageChild>,
    pub file_info: Table<FileInfo>,
    pub file_desc: Table<FileDescriptor>,
    pub file_data: Table<FileData>,
    pub tail: Vec<u8>,
}

impl View for ResourceTables {
    type V = ResourceView;

    open spec fn view(&self) -> ResourceView {
        ResourceView {
            header: self.header@,
            stream_folder: self.stream_folder@,
            stream_path_lookup: self.stream_path_lookup@,
            stream_path: self.stream_path@,
            stream_entity: self.stream_entity@,
            stream_data: self.stream_data@,
            file_path_lookup: self.file_path_lookup@,
            file_path: self.file_path@,
            file_entity: self.file_entity@,
            file_package_lookup: self.file_package_lookup@,
            file_package: self.file_package@,
            file_group: self.file_group@,
            file_package_child: self.file_package_child@,
            file_info: self.file_info@,
            file_desc: self.file_desc@,
            file_data: self.file_data@,
            tail: self.tail@,
        }
    }
}

/// Are the bytes long enough for the tables that their header announces?
pub fn resource_bytes_fit(bytes: &[u8]) -> (r: bool)
    ensures
        r == resource_fits(bytes@),
{
    let w = read_words(bytes);
    if w.len() < RESOURCE_HEADER_WORDS {
        return false;
    }
    let len: u64 = w.len() as u64;
    let groups: u64 = w[9] as u64 + w[4] as u64 + w[16] as u64;
    let infos: u64 = w[6] as u64 + w[10] as u64 + w[19] as u64;
    let descs: u64 = w[7] as u64 + w[10] as u64 + w[20] as u64;
    let data: u64 = w[8] as u64 + w[10] as u64 + w[21] as u64;
    if groups > 0xFFFF_FFFF || infos > 0xFFFF_FFFF || descs > 0xFFFF_FFFF || data > 0xFFFF_FFFF {
        return false;
    }
    let streams: u64 = 68 + 3 * w[64] as u64 + 5 * w[65] as u64 + w[66] as u64 + 4 * w[67] as u64;
    if streams + 2 > len {
        return false;
    }
    let hashes: u64 = w[streams as usize] as u64;
    let buckets: u64 = w[streams as usize + 1] as u64;
    let need: u64 = streams + 2 + 2 * buckets + 2 * hashes + 8 * w[1] as u64 + 2 * w[2] as u64 + 15
        * w[3] as u64 + 7 * groups + 2 * w[5] as u64 + 4 * infos + 3 * descs + 4 * data;
    need <= len
}

impl ResourceTables {
    pub open spec fn wf(&self) -> bool {
        self@.wf()
    }

    /// Reads the tables from the bytes of the section.
    pub fn from_bytes(bytes: &[u8]) -> (r: ResourceTables)
        requires
            resource_fits(bytes@),
        ensures
            r@.blob() == bytes@,
            r@.shaped(),
            r@.fresh(),
    {
        let w = read_words(bytes);
        let r = ResourceTables::read(bytes, &w);
        proof {
            let n = r@.fixed_words().len() as int;
            lemma_split_words(w@, tail_bytes(bytes@), n);
            law_bytes_words_round_trip(bytes@);
        }
        r
    }

    /// Reads the tables from the words of the section.
    #[verifier::rlimit(60)]
    fn read(bytes: &[u8], w: &Vec<u32>) -> (r: ResourceTables)
        requires
            w@ == bytes_to_words(bytes@),
            resource_fits(bytes@),
        ensures
            r@.shaped(),
            r@.fresh(),
            r@.fixed_words().len() <= w@.len(),
            r@.fixed_words() == w@.take(r@.fixed_words().len() as int),
            r@.tail == bytes@.skip(4 * r@.fixed_words().len() as int),
    {
        let len: usize = w.len();
        let header = ResourceTableHeader { words: take_words(w, RESOURCE_HEADER_WORDS) };
        let groups: usize = (w[9] + w[4] + w[16]) as usize;
        let infos: usize = (w[6] + w[10] + w[19]) as usize;
        let descs: usize = (w[7] + w[10] + w[20]) as usize;
        let data: usize = (w[8] + w[10] + w[21]) as usize;
        let c0: usize = RESOURCE_HEADER_WORDS;
        let stream_folder = Table::<StreamFolder>::new(w, c0, w[64] as usize);
        let c1: usize = c0 + 3 * (w[64] as usize);
        let stream_path_lookup = IndexLookup::new(w, c1, w[65] as usize);
        let c2: usize = c1 + 2 * (w[65] as usize);
        let stream_path = Table::<StreamPath>::new(w, c2, w[65] as usize);
        let c3: usize = c2 + 3 * (w[65] as usize);
        let stream_entity = Table::<StreamEntity>::new(w, c3, w[66] as usize);
        let c4: usize = c3 + w[66] as usize;
        let stream_data = Table::<StreamData>::new(w, c4, w[67] as usize);
        let c5: usize = c4 + 4 * (w[67] as usize);
        let hashes: usize = w[c5] as usize;
        let buckets: usize = w[c5 + 1] as usize;
        let file_path_lookup = BucketLookup::new(w, c5 + 2, hashes, buckets);
        let c6: usize = c5 + 2 + buckets * 2 + hashes * 2;
        let file_path = Table::<FilePath>::new(w, c6, w[1] as usize);
        let c7: usize = c6 + 8 * (w[1] as usize);
        let file_entity = Table::<FileEntity>::new(w, c7, w[2] as usize);
        let c8: usize = c7 + 2 * (w[2] as usize);
        let file_package_lookup = IndexLookup::new(w, c8, w[3] as usize);
        let c9: usize = c8 + 2 * (w[3] as usize);
        let file_package = Table::<FilePackage>::new(w, c9, w[3] as usize);
        let c10: usize = c9 + 13 * (w[3] as usize);
        let file_group = Table::<FileGroup>::new(w, c10, groups);
        let c11: usize = c10 + 7 * groups;
        let file_package_child = Table::<FilePackageChild>::new(w, c11, w[5] as usize);
        let c12: usize = c11 + 2 * (w[5] as usize);
        let file_info = Table::<FileInfo>::new(w, c12, infos);
        let c13: usize = c12 + 4 * infos;
        let file_desc = Table::<FileDescriptor>::new(w, c13, descs);
        let c14: usize = c13 + 3 * descs;
        let file_data = Table::<FileData>::new(w, c14, data);
        let c15: usize = c14 + 4 * data;
        let tail = bytes_behind(bytes, c15);
        let r = ResourceTables {
            header,
            stream_folder,
            stream_path_lookup,
            stream_path,
            stream_entity,
            stream_data,
            file_path_lookup,
            file_path,
            file_entity,
            file_package_lookup,
            file_package,
            file_group,
            file_package_child,
            file_info,
            file_desc,
            file_data,
            tail,
        };
        proof {
            assert(w@.subrange(0, c0 as int) =~= r.header@);
            lemma_lookup_words(w@, c5 as int, r.file_path_lookup@);
            lemma_resource_assembled(
                w@,
                r@,
                c0 as int,
                c1 as int,
                c2 as int,
                c3 as int,
                c4 as int,
                c5 as int,
                c6 as int,
                c7 as int,
                c8 as int,
                c9 as int,
                c10 as int,
                c11 as int,
                c12 as int,
                c13 as int,
                c14 as int,
                c15 as int,
            );
            assert(r@.fixed_words() == w@.subrange(0, c15 as int));
            assert(w@.take(c15 as int) =~= w@.subrange(0, c15 as int));
        }
        r
    }

    /// Brings everything into the fixed parts and makes the header match.
    #[verifier::rlimit(60)]
    pub fn reserialize_internal(&mut self)
        requires
            old(self).wf(),
            old(self)@.serializable(),
        ensures
            final(self)@ == old(self)@.reserialized(),
    {
        proof {
            lemma_resource_merged_lens(self@);
        }
        self.stream_folder.merge();
        self.stream_path_lookup.merge();
        self.stream_path.merge();
        self.stream_entity.merge();
        self.stream_data.merge();
        self.file_path_lookup.merge();
        self.file_path.merge();
        self.file_entity.merge();
        self.file_package_lookup.merge();
        self.file_package.merge();
        self.file_group.merge();
        self.file_package_child.merge();
        self.file_info.merge();
        self.file_desc.merge();
        self.file_data.merge();
        let total: u32 = 68 + 2
            + 3 * self.stream_folder.len() as u32
            + 2 * self.stream_path_lookup.fixed_len() as u32
            + 3 * self.stream_path.len() as u32
            + self.stream_entity.len() as u32
            + 4 * self.stream_data.len() as u32 + 2
            * self.file_path_lookup.bucket_count() as u32 + 2 * self.file_path_lookup.fixed_len() as u32
            + 8 * self.file_path.len() as u32
            + 2 * self.file_entity.len() as u32
            + 2 * self.file_package_lookup.fixed_len() as u32
            + 13 * self.file_package.len() as u32
            + 7 * self.file_group.len() as u32
            + 2 * self.file_package_child.len() as u32
            + 4 * self.file_info.len() as u32
            + 3 * self.file_desc.len() as u32
            + 4 * self.file_data.len() as u32;
        let h = &self.header.words;
        let groups: u32 = self.file_group.len() as u32 - h[16] - h[9];
        let infos: u32 = self.file_info.len() as u32 - h[19] - h[10];
        let descs: u32 = self.file_desc.len() as u32 - h[20] - h[10];
        let data: u32 = self.file_data.len() as u32 - h[21] - h[10];
        self.header.words.set(0, 4 * total);
        self.header.words.set(3, self.file_package.len() as u32);
        self.header.words.set(5, self.file_package_child.len() as u32);
        self.header.words.set(4, groups);
        self.header.words.set(1, self.file_path.len() as u32);
        self.header.words.set(2, self.file_entity.len() as u32);
        self.header.words.set(6, infos);
        self.header.words.set(7, descs);
        self.header.words.set(8, data);
        self.tail = Vec::new();
    }

    /// The bytes of the section, as far as it is in the fixed parts.
    pub fn raw(&self) -> (r: Vec<u8>)
        requires
            self@.file_path_lookup.hashes.len() <= u32::MAX,
            self@.file_path_lookup.buckets.len() <= u32::MAX,
        ensures
            r@ == self@.blob(),
    {
        let mut out: Vec<u32> = Vec::new();
        append_words(&mut out, &self.header.words);
        self.stream_folder.write_fixed(&mut out);
        self.stream_path_lookup.write_fixed(&mut out);
        self.stream_path.write_fixed(&mut out);
        self.stream_entity.write_fixed(&mut out);
        self.stream_data.write_fixed(&mut out);
        self.file_path_lookup.write_fixed(&mut out);
        self.file_path.write_fixed(&mut out);
        self.file_entity.write_fixed(&mut out);
        self.file_package_lookup.write_fixed(&mut out);
        self.file_package.write_fixed(&mut out);
        self.file_group.write_fixed(&mut out);
        self.file_package_child.write_fixed(&mut out);
        self.file_info.write_fixed(&mut out);
        self.file_desc.write_fixed(&mut out);
        self.file_data.write_fixed(&mut out);
        proof {
            assert(Seq::<u32>::empty() + self@.header =~= self@.header);
            assert(out@ == self@.fixed_words());
        }
        let mut r = write_words(&out);
        append_bytes(&mut r, &self.tail);
        r
    }
}

/// The counts, the buckets and the hashes of a bucketed lookup lie behind one another.
proof fn lemma_lookup_words(w: Seq<u32>, at: int, v: BucketView)
    requires
        0 <= at,
        at + 2 + 2 * v.buckets.len() + 2 * v.hashes.len() <= w.len(),
        v.hashes.len() == w[at],
        v.buckets.len() == w[at + 1],
        flat(v.buckets) + flat(v.hashes) == w.subrange(
            at + 2,
            at + 2 + 2 * v.buckets.len() + 2 * v.hashes.len(),
        ),
    ensures
        v.fixed_words() == w.subrange(at, at + 2 + 2 * v.buckets.len() + 2 * v.hashes.len()),
{
    let back = flat(v.buckets) + flat(v.hashes);
    let front = seq![v.hashes.len() as u32, v.buckets.len() as u32];
    assert(v.fixed_words() =~= front + back);
    assert(front + back =~= w.subrange(at, at + 2 + 2 * v.buckets.len() + 2 * v.hashes.len()));
}

/// Tables that were read from behind one another are stored behind one another.
proof fn lemma_resource_assembled(
    w: Seq<u32>,
    v: ResourceView,
    c0: int,
    c1: int,
    c2: int,
    c3: int,
    c4: int,
    c5: int,
    c6: int,
    c7: int,
    c8: int,
    c9: int,
    c10: int,
    c11: int,
    c12: int,
    c13: int,
    c14: int,
    c15: int,
)
    requires
        0 <= c0 <= c1 <= c2 <= c3 <= c4 <= c5 <= c6 <= c7 <= c8,
        c8 <= c9 <= c10 <= c11 <= c12 <= c13 <= c14 <= c15 <= w.len(),
        v.header == w.subrange(0, c0),
        flat(v.stream_folder.fixed) == w.subrange(c0, c1),
        flat(v.stream_path_lookup.fixed) == w.subrange(c1, c2),
        flat(v.stream_path.fixed) == w.subrange(c2, c3),
        flat(v.stream_entity.fixed) == w.subrange(c3, c4),
        flat(v.stream_data.fixed) == w.subrange(c4, c5),
        v.file_path_lookup.fixed_words() == w.subrange(c5, c6),
        flat(v.file_path.fixed) == w.subrange(c6, c7),
        flat(v.file_entity.fixed) == w.subrange(c7, c8),
        flat(v.file_package_lookup.fixed) == w.subrange(c8, c9),
        flat(v.file_package.fixed) == w.subrange(c9, c10),
        flat(v.file_group.fixed) == w.subrange(c10, c11),
        flat(v.file_package_child.fixed) == w.subrange(c11, c12),
        flat(v.file_info.fixed) == w.subrange(c12, c13),
        flat(v.file_desc.fixed) == w.subrange(c13, c14),
        flat(v.file_data.fixed) == w.subrange(c14, c15),
    ensures
        v.fixed_words() == w.subrange(0, c15),
{
    lemma_extend(w, c0, c1);
    lemma_extend(w, c1, c2);
    lemma_extend(w, c2, c3);
    lemma_extend(w, c3, c4);
    lemma_extend(w, c4, c5);
    lemma_extend(w, c5, c6);
    lemma_extend(w, c6, c7);
    lemma_extend(w, c7, c8);
    lemma_extend(w, c8, c9);
    lemma_extend(w, c9, c10);
    lemma_extend(w, c10, c11);
    lemma_extend(w, c11, c12);
    lemma_extend(w, c12, c13);
    lemma_extend(w, c13, c14);
    lemma_extend(w, c14, c15);
}

proof fn lemma_resource_merged_lens(v: ResourceView)
    requires
        v.wf(),
        v.serializable(),
    ensures
        v.stream_path_lookup.merged().fixed.len() == v.stream_path_lookup.len(),
        v.file_package_lookup.merged().fixed.len() == v.file_package_lookup.len(),
        v.file_path_lookup.merged().wf(),
        v.file_path_lookup.merged().hashes.len() == v.path_hash_count(),
{
    law_lookup_merged(v.stream_path_lookup, 0);
    law_lookup_merged(v.file_package_lookup, 0);
    law_bucket_merged(v.file_path_lookup, 0);
}

/// The words in front of a byte string that starts with the bytes of `w`.
proof fn lemma_words_prefix(w: Seq<u32>, tail: Seq<u8>)
    ensures
        w.len() <= bytes_to_words(words_to_bytes(w) + tail).len(),
        bytes_to_words(words_to_bytes(w) + tail).take(w.len() as int) == w,
{
    law_words_bytes_round_trip(w);
    lemma_bytes_to_words_prefix(words_to_bytes(w), tail);
}

proof fn lemma_words_len<T: Record>(s: Seq<T>, width: nat)
    requires
        T::width() == width,
    ensures
        flat(s).len() == width * s.len(),
{
    lemma_flat_len(s);
    assert(s.len() * width == width * s.len()) by (nonlinear_arith);
}

proof fn lemma_same_tail(w: Seq<u32>, a: Seq<u8>, b: Seq<u8>)
    requires
        words_to_bytes(w) + a == words_to_bytes(w) + b,
    ensures
        a == b,
{
    let n = words_to_bytes(w).len() as int;
    assert(a =~= (words_to_bytes(w) + a).skip(n));
    assert(b =~= (words_to_bytes(w) + b).skip(n));
}

/// The stored runs of words, in their order.
pub open spec fn search_segments(v: SearchView) -> Seq<Seq<u32>> {
    seq![
        v.header,
        flat(v.search_folder_lookup.fixed),
        flat(v.search_folder.fixed),
        flat(v.search_path_lookup.fixed),
        flat(v.search_path_link.fixed),
        flat(v.search_path.fixed),
    ]
}

proof fn lemma_search_segments(v: SearchView)
    ensures
        cat(search_segments(v)) == v.fixed_words(),
        search_segments(v).len() == 6,
{
    let s0 = Seq::<Seq<u32>>::empty();
    let s1 = s0.push(v.header);
    lemma_cat_push(s0, v.header);
    let s2 = s1.push(flat(v.search_folder_lookup.fixed));
    lemma_cat_push(s1, flat(v.search_folder_lookup.fixed));
    let s3 = s2.push(flat(v.search_folder.fixed));
    lemma_cat_push(s2, flat(v.search_folder.fixed));
    let s4 = s3.push(flat(v.search_path_lookup.fixed));
    lemma_cat_push(s3, flat(v.search_path_lookup.fixed));
    let s5 = s4.push(flat(v.search_path_link.fixed));
    lemma_cat_push(s4, flat(v.search_path_link.fixed));
    let s6 = s5.push(flat(v.search_path.fixed));
    lemma_cat_push(s5, flat(v.search_path.fixed));
    assert(s6 =~= search_segments(v));
    assert(cat(s1) =~= v.header);
}

proof fn lemma_search_segment_lens(v: SearchView)
    ensures
        search_segments(v)[0].len() == v.header.len(),
        search_segments(v)[1].len() == 2 * v.search_folder_lookup.fixed.len(),
        search_segments(v)[2].len() == 8 * v.search_folder.fixed.len(),
        search_segments(v)[3].len() == 2 * v.search_path_lookup.fixed.len(),
        search_segments(v)[4].len() == v.search_path_link.fixed.len(),
        search_segments(v)[5].len() == 8 * v.search_path.fixed.len(),
{
    assert(search_segments(v)[1] == flat(v.search_folder_lookup.fixed));
    lemma_words_len(v.search_folder_lookup.fixed, 2);
    assert(search_segments(v)[2] == flat(v.search_folder.fixed));
    lemma_words_len(v.search_folder.fixed, 8);
    assert(search_segments(v)[3] == flat(v.search_path_lookup.fixed));
    lemma_words_len(v.search_path_lookup.fixed, 2);
    assert(search_segments(v)[4] == flat(v.search_path_link.fixed));
    lemma_words_len(v.search_path_link.fixed, 1);
    assert(search_segments(v)[5] == flat(v.search_path.fixed));
    lemma_words_len(v.search_path.fixed, 8);
}

/// Freshly read search tables are determined by the bytes that they were read from.
pub proof fn law_search_blob_injective(a: SearchView, b: SearchView)
    requires
        a.shaped(),
        b.shaped(),
        a.fresh(),
        b.fresh(),
        a.blob() == b.blob(),
    ensures
        a == b,
{
    let w = bytes_to_words(a.blob());
    let s = search_segments(a);
    let t = search_segments(b);
    lemma_words_prefix(a.fixed_words(), a.tail);
    lemma_words_prefix(b.fixed_words(), b.tail);
    lemma_search_segments(a);
    lemma_search_segments(b);
    lemma_search_segment_lens(a);
    lemma_search_segment_lens(b);
    lemma_cat_prefix(s, 1, w);
    lemma_cat_prefix(t, 1, w);
    assert forall|i: int| 0 <= i < 1 implies (#[trigger] s.take(1)[i]).len() == t.take(1)[i].len() by {
        assert(s.take(1)[0] == s[0] && t.take(1)[0] == t[0]);
    }
    lemma_cat_injective(s.take(1), t.take(1), w);
    assert(s.take(1)[0] == a.header && t.take(1)[0] == b.header);
    assert forall|i: int| 0 <= i < 6 implies (#[trigger] s[i]).len() == t[i].len() by {
        assert(i == 0 || i == 1 || i == 2 || i == 3 || i == 4 || i == 5);
    }
    lemma_cat_injective(s, t, w);
    assert(s[1] == t[1]);
    law_flat_injective(a.search_folder_lookup.fixed, b.search_folder_lookup.fixed);
    assert(s[2] == t[2]);
    law_flat_injective(a.search_folder.fixed, b.search_folder.fixed);
    assert(s[3] == t[3]);
    law_flat_injective(a.search_path_lookup.fixed, b.search_path_lookup.fixed);
    assert(s[4] == t[4]);
    law_flat_injective(a.search_path_link.fixed, b.search_path_link.fixed);
    assert(s[5] == t[5]);
    law_flat_injective(a.search_path.fixed, b.search_path.fixed);
    lemma_same_tail(a.fixed_words(), a.tail, b.tail);
}

/// The stored runs of words, in their order.
pub open spec fn resource_segments(v: ResourceView) -> Seq<Seq<u32>> {
    seq![
        v.header,
        flat(v.stream_folder.fixed),
        flat(v.stream_path_lookup.fixed),
        flat(v.stream_path.fixed),
        flat(v.stream_entity.fixed),
        flat(v.stream_data.fixed),
        seq![v.file_path_lookup.hashes.len() as u32, v.file_path_lookup.buckets.len() as u32],
        flat(v.file_path_lookup.buckets),
        flat(v.file_path_lookup.hashes),
        flat(v.file_path.fixed),
        flat(v.file_entity.fixed),
        flat(v.file_package_lookup.fixed),
        flat(v.file_package.fixed),
        flat(v.file_group.fixed),
        flat(v.file_package_child.fixed),
        flat(v.file_info.fixed),
        flat(v.file_desc.fixed),
        flat(v.file_data.fixed),
    ]
}

proof fn lemma_resource_segments(v: ResourceView)
    ensures
        cat(resource_segments(v)) == v.fixed_words(),
        resource_segments(v).len() == 18,
{
    let s0 = Seq::<Seq<u32>>::empty();
    let s1 = s0.push(v.header);
    lemma_cat_push(s0, v.header);
    let s2 = s1.push(flat(v.stream_folder.fixed));
    lemma_cat_push(s1, flat(v.stream_folder.fixed));
    let s3 = s2.push(flat(v.stream_path_lookup.fixed));
    lemma_cat_push(s2, flat(v.stream_path_lookup.fixed));
    let s4 = s3.push(flat(v.stream_path.fixed));
    lemma_cat_push(s3, flat(v.stream_path.fixed));
    let s5 = s4.push(flat(v.stream_entity.fixed));
    lemma_cat_push(s4, flat(v.stream_entity.fixed));
    let s6 = s5.push(flat(v.stream_data.fixed));
    lemma_cat_push(s5, flat(v.stream_data.fixed));
    let s7 = s6.push(seq![v.file_path_lookup.hashes.len() as u32, v.file_path_lookup.buckets.len() as u32]);
    lemma_cat_push(s6, seq![v.file_path_lookup.hashes.len() as u32, v.file_path_lookup.buckets.len() as u32]);
    let s8 = s7.push(flat(v.file_path_lookup.buckets));
    lemma_cat_push(s7, flat(v.file_path_lookup.buckets));
    let s9 = s8.push(flat(v.file_path_lookup.hashes));
    lemma_cat_push(s8, flat(v.file_path_lookup.hashes));
    let s10 = s9.push(flat(v.file_path.fixed));
    lemma_cat_push(s9, flat(v.file_path.fixed));
    let s11 = s10.push(flat(v.file_entity.fixed));
    lemma_cat_push(s10, flat(v.file_entity.fixed));
    let s12 = s11.push(flat(v.file_package_lookup.fixed));
    lemma_cat_push(s11, flat(v.file_package_lookup.fixed));
    let s13 = s12.push(flat(v.file_package.fixed));
    lemma_cat_push(s12, flat(v.file_package.fixed));
    let s14 = s13.push(flat(v.file_group.fixed));
    lemma_cat_push(s13, flat(v.file_group.fixed));
    let s15 = s14.push(flat(v.file_package_child.fixed));
    lemma_cat_push(s14, flat(v.file_package_child.fixed));
    let s16 = s15.push(flat(v.file_info.fixed));
    lemma_cat_push(s15, flat(v.file_info.fixed));
    let s17 = s16.push(flat(v.file_desc.fixed));
    lemma_cat_push(s16, flat(v.file_desc.fixed));
    let s18 = s17.push(flat(v.file_data.fixed));
    lemma_cat_push(s17, flat(v.file_data.fixed));
    assert(s18 =~= resource_segments(v));
    assert(cat(s1) =~= v.header);
    assert(cat(s9) =~= cat(s6) + v.file_path_lookup.fixed_words()) by {
        let f = seq![v.file_path_lookup.hashes.len() as u32, v.file_path_lookup.buckets.len() as u32];
        assert(cat(s6) + f + flat(v.file_path_lookup.buckets) + flat(v.file_path_lookup.hashes)
            =~= cat(s6) + (f + flat(v.file_path_lookup.buckets) + flat(v.file_path_lookup.hashes)));
    }
}

proof fn lemma_resource_segment_lens(v: ResourceView)
    ensures
        resource_segments(v)[0].len() == v.header.len(),
        resource_segments(v)[1].len() == 3 * v.stream_folder.fixed.len(),
        resource_segments(v)[2].len() == 2 * v.stream_path_lookup.fixed.len(),
        resource_segments(v)[3].len() == 3 * v.stream_path.fixed.len(),
        resource_segments(v)[4].len() == v.stream_entity.fixed.len(),
        resource_segments(v)[5].len() == 4 * v.stream_data.fixed.len(),
        resource_segments(v)[6].len() == 2,
        resource_segments(v)[7].len() == 2 * v.file_path_lookup.buckets.len(),
        resource_segments(v)[8].len() == 2 * v.file_path_lookup.hashes.len(),
        resource_segments(v)[9].len() == 8 * v.file_path.fixed.len(),
        resource_segments(v)[10].len() == 2 * v.file_entity.fixed.len(),
        resource_segments(v)[11].len() == 2 * v.file_package_lookup.fixed.len(),
        resource_segments(v)[12].len() == 13 * v.file_package.fixed.len(),
        resource_segments(v)[13].len() == 7 * v.file_group.fixed.len(),
        resource_segments(v)[14].len() == 2 * v.file_package_child.fixed.len(),
        resource_segments(v)[15].len() == 4 * v.file_info.fixed.len(),
        resource_segments(v)[16].len() == 3 * v.file_desc.fixed.len(),
        resource_segments(v)[17].len() == 4 * v.file_data.fixed.len(),
{
    assert(resource_segments(v)[1] == flat(v.stream_folder.fixed));
    lemma_words_len(v.stream_folder.fixed, 3);
    assert(resource_segments(v)[2] == flat(v.stream_path_lookup.fixed));
    lemma_words_len(v.stream_path_lookup.fixed, 2);
    assert(resource_segments(v)[3] == flat(v.stream_path.fixed));
    lemma_words_len(v.stream_path.fixed, 3);
    assert(resource_segments(v)[4] == flat(v.stream_entity.fixed));
    lemma_words_len(v.stream_entity.fixed, 1);
    assert(resource_segments(v)[5] == flat(v.stream_data.fixed));
    lemma_words_len(v.stream_data.fixed, 4);
    assert(resource_segments(v)[7] == flat(v.file_path_lookup.buckets));
    lemma_words_len(v.file_path_lookup.buckets, 2);
    assert(resource_segments(v)[8] == flat(v.file_path_lookup.hashes));
    lemma_words_len(v.file_path_lookup.hashes, 2);
    assert(resource_segments(v)[9] == flat(v.file_path.fixed));
    lemma_words_len(v.file_path.fixed, 8);
    assert(resource_segments(v)[10] == flat(v.file_entity.fixed));
    lemma_words_len(v.file_entity.fixed, 2);
    assert(resource_segments(v)[11] == flat(v.file_package_lookup.fixed));
    lemma_words_len(v.file_package_lookup.fixed, 2);
    assert(resource_segments(v)[12] == flat(v.file_package.fixed));
    lemma_words_len(v.file_package.fixed, 13);
    assert(resource_segments(v)[13] == flat(v.file_group.fixed));
    lemma_words_len(v.file_group.fixed, 7);
    assert(resource_segments(v)[14] == flat(v.file_package_child.fixed));
    lemma_words_len(v.file_package_child.fixed, 2);
    assert(resource_segments(v)[15] == flat(v.file_info.fixed));
    lemma_words_len(v.file_info.fixed, 4);
    assert(resource_segments(v)[16] == flat(v.file_desc.fixed));
    lemma_words_len(v.file_desc.fixed, 3);
    assert(resource_segments(v)[17] == flat(v.file_data.fixed));
    lemma_words_len(v.file_data.fixed, 4);
}

/// Freshly read resource tables are determined by the bytes that they were read from.
pub proof fn law_resource_blob_injective(a: ResourceView, b: ResourceView)
    requires
        a.shaped(),
        b.shaped(),
        a.fresh(),
        b.fresh(),
        a.blob() == b.blob(),
    ensures
        a == b,
{
    let w = bytes_to_words(a.blob());
    let s = resource_segments(a);
    let t = resource_segments(b);
    lemma_words_prefix(a.fixed_words(), a.tail);
    lemma_words_prefix(b.fixed_words(), b.tail);
    lemma_resource_segments(a);
    lemma_resource_segments(b);
    lemma_resource_segment_lens(a);
    lemma_resource_segment_lens(b);
    lemma_cat_prefix(s, 1, w);
    lemma_cat_prefix(t, 1, w);
    assert forall|i: int| 0 <= i < 1 implies (#[trigger] s.take(1)[i]).len() == t.take(1)[i].len() by {
        assert(s.take(1)[0] == s[0] && t.take(1)[0] == t[0]);
    }
    lemma_cat_injective(s.take(1), t.take(1), w);
    assert(s.take(1)[0] == a.header && t.take(1)[0] == b.header);
    lemma_cat_prefix(s, 7, w);
    lemma_cat_prefix(t, 7, w);
    assert forall|i: int| 0 <= i < 7 implies (#[trigger] s.take(7)[i]).len() == t.take(7)[i].len() by {
        assert(s.take(7)[i] == s[i] && t.take(7)[i] == t[i]);
        assert(i == 0 || i == 1 || i == 2 || i == 3 || i == 4 || i == 5 || i == 6);
    }
    lemma_cat_injective(s.take(7), t.take(7), w);
    assert(s.take(7)[6] == s[6] && t.take(7)[6] == t[6]);
    assert(s[6][0] == a.file_path_lookup.hashes.len() as u32 && s[6][1]
        == a.file_path_lookup.buckets.len() as u32);
    assert(t[6][0] == b.file_path_lookup.hashes.len() as u32 && t[6][1]
        == b.file_path_lookup.buckets.len() as u32);
    assert forall|i: int| 0 <= i < 18 implies (#[trigger] s[i]).len() == t[i].len() by {
        assert(i == 0 || i == 1 || i == 2 || i == 3 || i == 4 || i == 5 || i == 6 || i == 7 || i == 8 || i == 9 || i == 10 || i == 11 || i == 12 || i == 13 || i == 14 || i == 15 || i == 16 || i == 17);
    }
    lemma_cat_injective(s, t, w);
    assert(s[1] == t[1]);
    law_flat_injective(a.stream_folder.fixed, b.stream_folder.fixed);
    assert(s[2] == t[2]);
    law_flat_injective(a.stream_path_lookup.fixed, b.stream_path_lookup.fixed);
    assert(s[3] == t[3]);
    law_flat_injective(a.stream_path.fixed, b.stream_path.fixed);
    assert(s[4] == t[4]);
    law_flat_injective(a.stream_entity.fixed, b.stream_entity.fixed);
    assert(s[5] == t[5]);
    law_flat_injective(a.stream_data.fixed, b.stream_data.fixed);
    assert(s[7] == t[7]);
    law_flat_injective(a.file_path_lookup.buckets, b.file_path_lookup.buckets);
    assert(s[8] == t[8]);
    law_flat_injective(a.file_path_lookup.hashes, b.file_path_lookup.hashes);
    assert(s[9] == t[9]);
    law_flat_injective(a.file_path.fixed, b.file_path.fixed);
    assert(s[10] == t[10]);
    law_flat_injective(a.file_entity.fixed, b.file_entity.fixed);
    assert(s[11] == t[11]);
    law_flat_injective(a.file_package_lookup.fixed, b.file_package_lookup.fixed);
    assert(s[12] == t[12]);
    law_flat_injective(a.file_package.fixed, b.file_package.fixed);
    assert(s[13] == t[13]);
    law_flat_injective(a.file_group.fixed, b.file_group.fixed);
    assert(s[14] == t[14]);
    law_flat_injective(a.file_package_child.fixed, b.file_package_child.fixed);
    assert(s[15] == t[15]);
    law_flat_injective(a.file_info.fixed, b.file_info.fixed);
    assert(s[16] == t[16]);
    law_flat_injective(a.file_desc.fixed, b.file_desc.fixed);
    assert(s[17] == t[17]);
    law_flat_injective(a.file_data.fixed, b.file_data.fixed);
    assert(a.file_path_lookup.dynamic =~= b.file_path_lookup.dynamic);
    lemma_same_tail(a.fixed_words(), a.tail, b.tail);
}

/// What was serialized again has the shape that its header says, so that reading its bytes gives it
/// back. The lookups need an entry for each item that is found through them.
#[verifier::spinoff_prover]
pub proof fn law_search_reserialized(v: SearchView)
    requires
        v.wf(),
        v.serializable(),
        v.search_folder_lookup.len() == v.search_folder.len(),
        v.search_path_lookup.len() == v.search_path_link.len(),
    ensures
        v.reserialized().shaped(),
        v.reserialized().fresh(),
        v.reserialized().wf(),
        v.reserialized().fixed_words().len() == v.total_words(),
        search_fits(v.reserialized().blob()),
{
    let r = v.reserialized();
    crate::containers::law_lookup_merged(v.search_folder_lookup, 0);
    crate::containers::law_lookup_merged(v.search_path_lookup, 0);
    lemma_flat_len(r.search_folder_lookup.fixed);
    lemma_flat_len(r.search_folder.fixed);
    lemma_flat_len(r.search_path_lookup.fixed);
    lemma_flat_len(r.search_path_link.fixed);
    lemma_flat_len(r.search_path.fixed);
    law_words_bytes_round_trip(r.fixed_words());
    assert(r.blob() =~= words_to_bytes(r.fixed_words()));
    assert(r.fixed_words().take(SEARCH_HEADER_WORDS as int) =~= r.header);
    assert forall|i: int| 0 <= i < SEARCH_HEADER_WORDS implies r.fixed_words()[i] == r.header[i] by {
        assert(r.fixed_words().take(SEARCH_HEADER_WORDS as int)[i] == r.header[i]);
    }
}

/// What was serialized again has the shape that its header says, so that reading its bytes gives it
/// back. The package lookup needs an entry for each package, and the stream tables must not have
/// grown, because the header goes on counting them as they were.
#[verifier::rlimit(60)]
pub proof fn law_resource_reserialized(v: ResourceView)
    requires
        v.wf(),
        v.serializable(),
        v.file_package_lookup.len() == v.file_package.len(),
        v.stream_path_lookup.len() == v.stream_path.len() == v.header[65],
        v.stream_folder.len() == v.header[64],
        v.stream_entity.len() == v.header[66],
        v.stream_data.len() == v.header[67],
    ensures
        v.reserialized().shaped(),
        v.reserialized().fresh(),
        v.reserialized().wf(),
        v.reserialized().fixed_words().len() == v.total_words(),
        resource_fits(v.reserialized().blob()),
{
    let r = v.reserialized();
    let h = r.header;
    lemma_resource_merged_lens(v);
    crate::containers::law_lookup_merged(v.stream_path_lookup, 0);
    crate::containers::law_lookup_merged(v.file_package_lookup, 0);
    law_shaped_resource_fits(r);
}

/// Tables of the shape that their header says can be read from their bytes.
pub proof fn law_shaped_resource_fits(v: ResourceView)
    requires
        v.shaped(),
    ensures
        resource_fits(v.blob()),
        v.fixed_words().len() == resource_words(
            v.header,
            v.file_path_lookup.hashes.len() as int,
            v.file_path_lookup.buckets.len() as int,
        ),
{
    lemma_words_prefix(v.fixed_words(), v.tail);
    lemma_shaped_words_fit(v, bytes_to_words(v.blob()));
}

proof fn lemma_shaped_words_fit(v: ResourceView, all: Seq<u32>)
    requires
        v.shaped(),
        v.fixed_words().len() <= all.len(),
        all.take(v.fixed_words().len() as int) == v.fixed_words(),
    ensures
        resource_words_fit(all),
        v.fixed_words().len() == resource_words(
            v.header,
            v.file_path_lookup.hashes.len() as int,
            v.file_path_lookup.buckets.len() as int,
        ),
{
    let s = resource_segments(v);
    let h = v.header;
    lemma_resource_segments(v);
    lemma_resource_segment_lens(v);
    lemma_header_in_front(s, h);
    lemma_cat_lens(s);
    lemma_cat_index(s, 6, 0);
    lemma_cat_index(s, 6, 1);
    let w = cat(s);
    assert forall|i: int| 0 <= i < w.len() implies all[i] == #[trigger] w[i] by {
        assert(all.take(w.len() as int)[i] == w[i]);
    }
    let n = stream_words(h);
    assert(cat(s.take(6)).len() == n);
    assert(s[6][0] == v.file_path_lookup.hashes.len() as u32);
    assert(s[6][1] == v.file_path_lookup.buckets.len() as u32);
    assert(w[n] == v.file_path_lookup.hashes.len());
    assert(w[n + 1] == v.file_path_lookup.buckets.len());
    assert(all[n] == w[n] && all[n + 1] == w[n + 1]);
    lemma_same_header(h, w, all);
}

proof fn lemma_same_header(h: Seq<u32>, w: Seq<u32>, all: Seq<u32>)
    requires
        h.len() == RESOURCE_HEADER_WORDS,
        w.len() >= h.len(),
        all.len() >= w.len(),
        forall|i: int| 0 <= i < h.len() ==> #[trigger] w[i] == h[i],
        forall|i: int| 0 <= i < w.len() ==> all[i] == #[trigger] w[i],
    ensures
        stream_words(all) == stream_words(h),
        group_count(all) == group_count(h),
        info_count(all) == info_count(h),
        desc_count(all) == desc_count(h),
        data_count(all) == data_count(h),
        forall|a: int, b: int| #[trigger] resource_words(all, a, b) == resource_words(h, a, b),
{
    assert forall|i: int| 0 <= i < h.len() implies all[i] == #[trigger] h[i] by {
        assert(w[i] == h[i]);
    }
}

proof fn lemma_header_in_front(s: Seq<Seq<u32>>, h: Seq<u32>)
    requires
        s.len() > 0,
        s[0] == h,
    ensures
        cat(s).len() >= h.len(),
        forall|i: int| 0 <= i < h.len() ==> #[trigger] cat(s)[i] == h[i],
{
    assert(cat(s.take(0)) =~= Seq::empty());
    if h.len() > 0 {
        lemma_cat_index(s, 0, h.len() - 1);
    }
    assert forall|i: int| 0 <= i < h.len() implies #[trigger] cat(s)[i] == h[i] by {
        lemma_cat_index(s, 0, i);
    }
}

/// The number of words is the sum of the lengths of the runs.
proof fn lemma_cat_lens(s: Seq<Seq<u32>>)
    requires
        s.len() == 18,
    ensures
        cat(s.take(6)).len() == s[0].len() + s[1].len() + s[2].len() + s[3].len() + s[4].len()
            + s[5].len(),
        cat(s).len() == s[0].len() + s[1].len() + s[2].len() + s[3].len() + s[4].len() + s[5].len()
            + s[6].len() + s[7].len() + s[8].len() + s[9].len() + s[10].len() + s[11].len()
            + s[12].len() + s[13].len() + s[14].len() + s[15].len() + s[16].len() + s[17].len(),
{
    assert(s.take(0) =~= Seq::empty());
    lemma_cat_push(s.take(0), s[0]);
    assert(s.take(1) =~= s.take(0).push(s[0]));
    lemma_cat_push(s.take(1), s[1]);
    assert(s.take(2) =~= s.take(1).push(s[1]));
    lemma_cat_push(s.take(2), s[2]);
    assert(s.take(3) =~= s.take(2).push(s[2]));
    lemma_cat_push(s.take(3), s[3]);
    assert(s.take(4) =~= s.take(3).push(s[3]));
    lemma_cat_push(s.take(4), s[4]);
    assert(s.take(5) =~= s.take(4).push(s[4]));
    lemma_cat_push(s.take(5), s[5]);
    assert(s.take(6) =~= s.take(5).push(s[5]));
    lemma_cat_push(s.take(6), s[6]);
    assert(s.take(7) =~= s.take(6).push(s[6]));
    lemma_cat_push(s.take(7), s[7]);
    assert(s.take(8) =~= s.take(7).push(s[7]));
    lemma_cat_push(s.take(8), s[8]);
    assert(s.take(9) =~= s.take(8).push(s[8]));
    lemma_cat_push(s.take(9), s[9]);
    assert(s.take(10) =~= s.take(9).push(s[9]));
    lemma_cat_push(s.take(10), s[10]);
    assert(s.take(11) =~= s.take(10).push(s[10]));
    lemma_cat_push(s.take(11), s[11]);
    assert(s.take(12) =~= s.take(11).push(s[11]));
    lemma_cat_push(s.take(12), s[12]);
    assert(s.take(13) =~= s.take(12).push(s[12]));
    lemma_cat_push(s.take(13), s[13]);
    assert(s.take(14) =~= s.take(13).push(s[13]));
    lemma_cat_push(s.take(14), s[14]);
    assert(s.take(15) =~= s.take(14).push(s[14]));
    lemma_cat_push(s.take(15), s[15]);
    assert(s.take(16) =~= s.take(15).push(s[15]));
    lemma_cat_push(s.take(16), s[16]);
    assert(s.take(17) =~= s.take(16).push(s[16]));
    lemma_cat_push(s.take(17), s[17]);
    assert(s.take(18) =~= s.take(17).push(s[17]));
    assert(s.take(18) =~= s);
}

impl ResourceTables {
    /// Can the section's size be stored once everything is in the fixed parts?
    pub fn is_serializable(&self) -> (r: bool)
        requires
            self.wf(),
        ensures
            r == self@.serializable(),
    {
        let (Some(stream_hashes), Some(package_hashes)) = (
            self.stream_path_lookup.len(),
            self.file_package_lookup.len(),
        ) else {
            return false;
        };
        let hashes: usize = self.file_path_lookup.entry_count();
        let buckets: usize = self.file_path_lookup.bucket_count();
        if hashes > 0xFFFF_FFFF || buckets > 0xFFFF_FFFF {
            return false;
        }
        let total: u64 = 68 + 2 + 2 * stream_hashes as u64 + 2 * package_hashes as u64 + 2
            * hashes as u64 + 2 * buckets as u64
            + 3 * self.stream_folder.len() as u64
            + 3 * self.stream_path.len() as u64
            + self.stream_entity.len() as u64
            + 4 * self.stream_data.len() as u64
            + 8 * self.file_path.len() as u64
            + 2 * self.file_entity.len() as u64
            + 13 * self.file_package.len() as u64
            + 7 * self.file_group.len() as u64
            + 2 * self.file_package_child.len() as u64
            + 4 * self.file_info.len() as u64
            + 3 * self.file_desc.len() as u64
            + 4 * self.file_data.len() as u64;
        4 * total <= 0xFFFF_FFFF
    }

    /// Are the lookups sorted, as searching them needs?
    pub fn is_sorted(&self) -> (r: bool)
        requires
            self@.shaped(),
            self@.fresh(),
        ensures
            r == self.wf(),
    {
        let r: bool = self.stream_path_lookup.is_sorted() && self.file_path_lookup.is_sorted()
            && self.file_package_lookup.is_sorted();
        proof {
            let v = self@.file_path_lookup;
            assert forall|b: int| 0 <= b < v.buckets.len() implies (#[trigger] v.part(b)).dynamic
                == Map::<u64, u32>::empty() by {}
            if r {
                assert forall|b: int| 0 <= b < v.buckets.len() implies (#[trigger] v.part(b)).wf() by {
                    assert(v.buckets[b].start + v.buckets[b].count <= v.hashes.len());
                }
            } else if self.wf() {
                assert forall|b: int| 0 <= b < v.buckets.len() implies sorted(
                    #[trigger] v.slice(b),
                ) by {
                    assert(v.part(b).wf());
                }
            }
        }
        r
    }
}

impl SearchTables {
    /// Are the lookups sorted, as searching them needs?
    pub fn is_sorted(&self) -> (r: bool)
        requires
            self@.shaped(),
            self@.fresh(),
        ensures
            r == self.wf(),
    {
        self.search_folder_lookup.is_sorted() && self.search_path_lookup.is_sorted()
    }
}

/// What an [`Archive`] holds.
pub struct ArchiveView {
    pub resource: ResourceView,
    pub search: SearchView,
}

impl ArchiveView {
    pub open spec fn wf(self) -> bool {
        self.resource.wf() && self.search.wf()
    }

    /// The sizes of both sections can be stored.
    pub open spec fn serializable(self) -> bool {
        self.resource.serializable() && self.search.serializable()
    }

    /// The archive with everything in the fixed parts of its tables.
    pub open spec fn reserialized(self) -> ArchiveView {
        ArchiveView {
            resource: self.resource.reserialized(),
            search: self.search.reserialized(),
        }
    }
}

/// The tables of the archive.
pub struct Archive {
    pub resource: ResourceTables,
    pub search: SearchTables,
}

impl View for Archive {
    type V = ArchiveView;

    open spec fn view(&self) -> ArchiveView {
        ArchiveView { resource: self.resource@, search: self.search@ }
    }
}

impl Archive {
    pub open spec fn wf(&self) -> bool {
        self@.wf()
    }

    /// Reads the archive from the bytes of its sections.
    pub fn from_blobs(packaged: &[u8], search: &[u8]) -> (r: Archive)
        requires
            resource_fits(packaged@),
            search_fits(search@),
        ensures
            r@.resource.blob() == packaged@,
            r@.resource.shaped(),
            r@.resource.fresh(),
            r@.search.blob() == search@,
            r@.search.shaped(),
            r@.search.fresh(),
    {
        Archive {
            resource: ResourceTables::from_bytes(packaged),
            search: SearchTables::from_bytes(search),
        }
    }

    /// Reads the archive from the bytes of its sections, unless they are too short. Whether its lookups
    /// are sorted is told by `is_sorted`.
    pub fn open(packaged: &[u8], search: &[u8]) -> (r: Option<Archive>)
        ensures
            match r {
                Some(a) => resource_fits(packaged@) && search_fits(search@) && a@.resource.blob()
                    == packaged@ && a@.resource.shaped() && a@.resource.fresh() && a@.search.blob()
                    == search@ && a@.search.shaped() && a@.search.fresh(),
                None => !resource_fits(packaged@) || !search_fits(search@),
            },
    {
        if resource_bytes_fit(packaged) && search_bytes_fit(search) {
            Some(Archive::from_blobs(packaged, search))
        } else {
            None
        }
    }

    /// Are the lookups of an archive that was read sorted, so that they can be searched?
    pub fn is_sorted(&self) -> (r: bool)
        requires
            self@.resource.shaped(),
            self@.resource.fresh(),
            self@.search.shaped(),
            self@.search.fresh(),
        ensures
            r == self.wf(),
    {
        self.resource.is_sorted() && self.search.is_sorted()
    }

    /// Brings everything into the fixed parts, so that the sections' bytes hold it.
    pub fn reserialize(&mut self)
        requires
            old(self).wf(),
            old(self)@.serializable(),
        ensures
            final(self)@ == old(self)@.reserialized(),
    {
        self.resource.reserialize_internal();
        self.search.reserialize_internal();
    }

    /// Can the sizes of both sections be stored once everything is in the fixed parts?
    pub fn is_serializable(&self) -> (r: bool)
        requires
            self.wf(),
        ensures
            r == self@.serializable(),
    {
        self.resource.is_serializable() && self.search.is_serializable()
    }

    /// The bytes of the resource section, as far as it is in the fixed parts.
    pub fn resource_blob(&self) -> (r: Vec<u8>)
        requires
            self@.resource.file_path_lookup.hashes.len() <= u32::MAX,
            self@.resource.file_path_lookup.buckets.len() <= u32::MAX,
        ensures
            r@ == self@.resource.blob(),
    {
        self.resource.raw()
    }

    /// The bytes of the search section, as far as it is in the fixed parts.
    pub fn search_blob(&self) -> (r: Vec<u8>)
        ensures
            r@ == self@.search.blob(),
    {
        self.search.raw()
    }
}

/// Each item that is found through a lookup has an entry there, and the stream tables are those that
/// the header counts. Reading an archive establishes this, and adding files keeps it.
pub open spec fn balanced(v: ArchiveView) -> bool {
    &&& v.resource.file_package_lookup.len() == v.resource.file_package.len()
    &&& v.resource.stream_path_lookup.len() == v.resource.stream_path.len()
    &&& v.resource.stream_path.len() == v.resource.header[65]
    &&& v.resource.stream_folder.len() == v.resource.header[64]
    &&& v.resource.stream_entity.len() == v.resource.header[66]
    &&& v.resource.stream_data.len() == v.resource.header[67]
    &&& v.search.search_folder_lookup.len() == v.search.search_folder.len()
    &&& v.search.search_path_lookup.len() == v.search.search_path_link.len()
}

/// A freshly read archive is balanced.
pub proof fn law_fresh_balanced(v: ArchiveView)
    requires
        v.resource.shaped(),
        v.resource.fresh(),
        v.search.shaped(),
        v.search.fresh(),
    ensures
        balanced(v),
{
}

/// Reading the bytes of an archive that was serialized again gives the same archive back, whichever
/// way the reader goes about it.
pub proof fn law_archive_round_trip(v: ArchiveView, read: ArchiveView)
    requires
        v.wf(),
        v.serializable(),
        balanced(v),
        read.resource.blob() == v.reserialized().resource.blob(),
        read.resource.shaped(),
        read.resource.fresh(),
        read.search.blob() == v.reserialized().search.blob(),
        read.search.shaped(),
        read.search.fresh(),
    ensures
        read == v.reserialized(),
        read.wf(),
{
    law_resource_reserialized(v.resource);
    law_search_reserialized(v.search);
    law_resource_blob_injective(read.resource, v.reserialized().resource);
    law_search_blob_injective(read.search, v.reserialized().search);
}

/// Serializing again keeps the items of every table, and every key of every lookup up to the 24 bits
/// that a stored index has.
pub proof fn law_reserialized_contents(v: ArchiveView, k: u64)
    requires
        v.wf(),
        v.serializable(),
    ensures
        v.reserialized().resource.stream_folder.items() == v.resource.stream_folder.items(),
        v.reserialized().resource.stream_path_lookup.get(k) == low24(v.resource.stream_path_lookup.get(k)),
        v.reserialized().resource.stream_path.items() == v.resource.stream_path.items(),
        v.reserialized().resource.stream_entity.items() == v.resource.stream_entity.items(),
        v.reserialized().resource.stream_data.items() == v.resource.stream_data.items(),
        v.reserialized().resource.file_path_lookup.get(k) == low24(v.resource.file_path_lookup.get(k)),
        v.reserialized().resource.file_path.items() == v.resource.file_path.items(),
        v.reserialized().resource.file_entity.items() == v.resource.file_entity.items(),
        v.reserialized().resource.file_package_lookup.get(k) == low24(v.resource.file_package_lookup.get(k)),
        v.reserialized().resource.file_package.items() == v.resource.file_package.items(),
        v.reserialized().resource.file_group.items() == v.resource.file_group.items(),
        v.reserialized().resource.file_package_child.items() == v.resource.file_package_child.items(),
        v.reserialized().resource.file_info.items() == v.resource.file_info.items(),
        v.reserialized().resource.file_desc.items() == v.resource.file_desc.items(),
        v.reserialized().resource.file_data.items() == v.resource.file_data.items(),
        v.reserialized().search.search_folder_lookup.get(k) == low24(v.search.search_folder_lookup.get(k)),
        v.reserialized().search.search_folder.items() == v.search.search_folder.items(),
        v.reserialized().search.search_path_lookup.get(k) == low24(v.search.search_path_lookup.get(k)),
        v.reserialized().search.search_path_link.items() == v.search.search_path_link.items(),
        v.reserialized().search.search_path.items() == v.search.search_path.items(),
{
    let r = v.reserialized();
    assert(r.resource.stream_folder.items() =~= v.resource.stream_folder.items());
    law_lookup_merged(v.resource.stream_path_lookup, k);
    assert(r.resource.stream_path.items() =~= v.resource.stream_path.items());
    assert(r.resource.stream_entity.items() =~= v.resource.stream_entity.items());
    assert(r.resource.stream_data.items() =~= v.resource.stream_data.items());
    law_bucket_merged(v.resource.file_path_lookup, k);
    assert(r.resource.file_path.items() =~= v.resource.file_path.items());
    assert(r.resource.file_entity.items() =~= v.resource.file_entity.items());
    law_lookup_merged(v.resource.file_package_lookup, k);
    assert(r.resource.file_package.items() =~= v.resource.file_package.items());
    assert(r.resource.file_group.items() =~= v.resource.file_group.items());
    assert(r.resource.file_package_child.items() =~= v.resource.file_package_child.items());
    assert(r.resource.file_info.items() =~= v.resource.file_info.items());
    assert(r.resource.file_desc.items() =~= v.resource.file_desc.items());
    assert(r.resource.file_data.items() =~= v.resource.file_data.items());
    law_lookup_merged(v.search.search_folder_lookup, k);
    assert(r.search.search_folder.items() =~= v.search.search_folder.items());
    law_lookup_merged(v.search.search_path_lookup, k);
    assert(r.search.search_path_link.items() =~= v.search.search_path_link.items());
    assert(r.search.search_path.items() =~= v.search.search_path.items());
}

/// The index that can be stored of an index.
pub open spec fn low24(index: Option<u32>) -> Option<u32> {
    match index {
        Some(i) => Some((i % 0x100_0000) as u32),
        None => None,
    }
}

} // verus!
