//! The list of mod files as one run of bytes.
//!
//! Discovering files takes a while, so what was found is written down. The list starts with a header.
//! Behind it lie the hashes of the paths, sorted, the runs of files that replace them, the files, their
//! sizes, and the roots that the files lie in.

use crate::checksum::{continue_crc, crc_continued};
use crate::discover::{
    is_key_listing, key_listing, law_files_put, list_keys, DiscoverError, DiscoveredFile,
    DiscoveredFiles, FilesView, LoadableFile,
};
use crate::hash40::{hash40_str, law_hash40_wf, Hash40};
use crate::hash_interner::{CacheView, HashMemorySlab, InternerCache, SlabView};
use crate::locale::{LocalePreferences, LANGUAGE_COUNT};
use crate::regional::{cache_path, cached, detect, detect_regional, Regional};
use crate::words::{
    bytes_to_words, cat, flat, law_bytes_words_round_trip, law_words_bytes_round_trip, le_byte,
    le_bytes, lemma_cat_push, lemma_le_bytes, lemma_words_to_bytes_concat, read_records, read_words,
    tail_bytes, words_to_bytes, write_records, write_words,
};
use std::collections::BTreeMap;
use vstd::prelude::*;
use vstd::string::StringExecFns;
use vstd::utf8::encode_utf8;

verus! {

broadcast use {vstd::laws_cmp::group_laws_cmp, vstd::std_specs::btree::group_btree_axioms};

/// A file's position, and what the file is for.
#[derive(Copy, Clone, Debug, PartialEq, Eq, Structural)]
pub enum Regionalized {
    Base,
    Locale(u8),
    Language(u8),
    Region(u8),
}

impl Regionalized {
    /// What a file is for, by number.
    pub open spec fn of(regional: Option<Regional>) -> Regionalized {
        match regional {
            None => Regionalized::Base,
            Some(Regional::Locale(l)) => Regionalized::Locale(l.number() as u8),
            Some(Regional::Language(l)) => Regionalized::Language(l.number() as u8),
            Some(Regional::Region(r)) => Regionalized::Region(r.number() as u8),
        }
    }

    pub open spec fn kind(self) -> int {
        match self {
            Regionalized::Base => 0,
            Regionalized::Locale(_) => 1,
            Regionalized::Language(_) => 2,
            Regionalized::Region(_) => 3,
        }
    }

    pub open spec fn number(self) -> u8 {
        match self {
            Regionalized::Base => 0,
            Regionalized::Locale(i) => i,
            Regionalized::Language(i) => i,
            Regionalized::Region(i) => i,
        }
    }

    pub fn from_regional(regional: Option<Regional>) -> (r: Regionalized)
        ensures
            r == Regionalized::of(regional),
            r.number() < 0x40,
    {
        match regional {
            None => Regionalized::Base,
            Some(Regional::Locale(l)) => Regionalized::Locale(l.index() as u8),
            Some(Regional::Language(l)) => Regionalized::Language(l.index() as u8),
            Some(Regional::Region(r)) => Regionalized::Region(r.index() as u8),
        }
    }
}

/// What a file is for in the top 8 bits, whether it is compressed in the bit below, and its index among
/// the files that are, or are not, in the other bits.
#[derive(Copy, Clone, Debug, PartialEq, Eq, Structural)]
pub struct FileIndex {
    pub bits: u32,
}

impl FileIndex {
    pub open spec fn of(regionalized: Regionalized, compressed: bool, index: u32) -> FileIndex {
        FileIndex {
            bits: (regionalized.kind() * 0x4000_0000 + regionalized.number() % 0x40 * 0x100_0000 + (
            if compressed {
                0x80_0000int
            } else {
                0
            }) + index % 0x80_0000) as u32,
        }
    }

    pub open spec fn regionalized(self) -> Regionalized {
        let kind = self.bits / 0x4000_0000;
        let number = (self.bits / 0x100_0000 % 0x40) as u8;
        if kind == 0 {
            Regionalized::Base
        } else if kind == 1 {
            Regionalized::Locale(number)
        } else if kind == 2 {
            Regionalized::Language(number)
        } else {
            Regionalized::Region(number)
        }
    }

    pub open spec fn spec_is_compressed(self) -> bool {
        self.bits / 0x80_0000 % 2 == 1
    }

    pub open spec fn spec_index(self) -> u32 {
        self.bits % 0x80_0000
    }

    pub fn get_regionalized(&self) -> (r: Regionalized)
        ensures
            r == self.regionalized(),
    {
        let number: u8 = (self.bits / 0x100_0000 % 0x40) as u8;
        match self.bits / 0x4000_0000 {
            0 => Regionalized::Base,
            1 => Regionalized::Locale(number),
            2 => Regionalized::Language(number),
            _ => Regionalized::Region(number),
        }
    }

    pub fn is_compressed(&self) -> (r: bool)
        ensures
            r == self.spec_is_compressed(),
    {
        self.bits / 0x80_0000 % 2 == 1
    }

    pub fn index(&self) -> (r: u32)
        ensures
            r == self.spec_index(),
    {
        self.bits % 0x80_0000
    }

    pub fn from_parts(regionalized: Regionalized, compressed: bool, index: u32) -> (r: FileIndex)
        ensures
            r == FileIndex::of(regionalized, compressed, index),
    {
        let (kind, number): (u32, u8) = match regionalized {
            Regionalized::Base => (0, 0),
            Regionalized::Locale(i) => (1, i),
            Regionalized::Language(i) => (2, i),
            Regionalized::Region(i) => (3, i),
        };
        let flag: u32 = if compressed {
            0x80_0000
        } else {
            0
        };
        FileIndex {
            bits: kind * 0x4000_0000 + (number % 0x40) as u32 * 0x100_0000 + flag + index % 0x80_0000,
        }
    }
}

/// The parts of a file index read back as they were stored.
pub proof fn law_file_index(regionalized: Regionalized, compressed: bool, index: u32)
    requires
        regionalized.number() < 0x40,
        index < 0x80_0000,
    ensures
        FileIndex::of(regionalized, compressed, index).regionalized() == regionalized,
        FileIndex::of(regionalized, compressed, index).spec_is_compressed() == compressed,
        FileIndex::of(regionalized, compressed, index).spec_index() == index,
{
    let k = regionalized.kind();
    let n = regionalized.number() as int;
    let c: int = if compressed {
        1
    } else {
        0
    };
    let bits = k * 0x4000_0000 + n * 0x100_0000 + c * 0x80_0000 + index;
    assert(bits / 0x4000_0000 == k);
    assert(bits / 0x100_0000 == k * 0x40 + n);
    assert(bits / 0x80_0000 == k * 0x80 + n * 2 + c);
}

/// A file that replaces a path: the root that it lies in, and its index.
#[derive(Copy, Clone, Debug, PartialEq, Eq, Structural)]
pub struct File {
    pub root: u32,
    pub index: FileIndex,
}

/// The run of files that replace a path.
#[derive(Copy, Clone, Debug, PartialEq, Eq, Structural)]
pub struct FileHeader {
    pub start: u32,
    pub num_files: u32,
}

#[derive(Copy, Clone, Debug, PartialEq, Eq, Structural)]
pub struct UncompressedFile {
    pub size: u32,
}

#[derive(Copy, Clone, Debug, PartialEq, Eq, Structural)]
pub struct CompressedFile {
    pub compressed_start: u32,
    pub compressed_size: u32,
    pub decompressed_size: u32,
}

/// Where the path of a root lies.
#[derive(Copy, Clone, Debug, PartialEq, Eq, Structural)]
pub struct Root {
    pub byte_start: u32,
    pub byte_count: u32,
}

/// The hash of a path in the low 40 bits, and the index of its run of files above.
#[derive(Copy, Clone, Debug, PartialEq, Eq, Structural)]
pub struct HashedFile {
    pub lo: u32,
    pub hi: u32,
}

impl HashedFile {
    pub open spec fn of(path: Hash40, index: u32) -> HashedFile {
        HashedFile {
            lo: (path.0 % 0x1_0000_0000) as u32,
            hi: (path.0 / 0x1_0000_0000 % 0x100 + index % 0x100_0000 * 0x100) as u32,
        }
    }

    pub open spec fn spec_path(self) -> Hash40 {
        Hash40((self.lo + self.hi % 0x100 * 0x1_0000_0000) as u64)
    }

    pub open spec fn spec_index(self) -> u32 {
        self.hi / 0x100
    }

    pub fn new(path: Hash40, index: u32) -> (r: HashedFile)
        requires
            path.wf(),
        ensures
            r == HashedFile::of(path, index),
    {
        let raw: u64 = path.raw();
        HashedFile {
            lo: (raw % 0x1_0000_0000) as u32,
            hi: (raw / 0x1_0000_0000 % 0x100) as u32 + index % 0x100_0000 * 0x100,
        }
    }

    pub fn path(&self) -> (r: Hash40)
        ensures
            r == self.spec_path(),
    {
        Hash40::from_raw(self.lo as u64 + (self.hi % 0x100) as u64 * 0x1_0000_0000)
    }

    pub fn index(&self) -> (r: u32)
        ensures
            r == self.spec_index(),
    {
        self.hi / 0x100
    }
}

/// A hash and a 24-bit index read back as they were stored.
pub proof fn law_hashed_file(path: Hash40, index: u32)
    requires
        path.wf(),
        index < 0x100_0000,
    ensures
        HashedFile::of(path, index).spec_path() == path,
        HashedFile::of(path, index).spec_index() == index,
        HashedFile::of(path, index).spec_path().wf(),
{
}

/// What a [`FileSystem`] holds.
pub struct ListView {
    /// Checksum of what was discovered, length of the roots' paths, and the number of roots, paths,
    /// uncompressed and compressed files.
    pub header: Seq<u32>,
    pub lookup: Seq<HashedFile>,
    pub file_headers: Seq<FileHeader>,
    pub files: Seq<File>,
    pub uncompressed: Seq<UncompressedFile>,
    pub compressed: Seq<CompressedFile>,
    pub roots: Seq<Root>,
    pub root_bytes: Seq<u8>,
}

/// The stored runs of words, in their order.
pub open spec fn list_segments(v: ListView) -> Seq<Seq<u32>> {
    seq![
        v.header,
        flat(v.lookup),
        flat(v.file_headers),
        flat(v.files),
        flat(v.uncompressed),
        flat(v.compressed),
        flat(v.roots),
    ]
}

/// Words in front of the roots' paths.
pub open spec fn list_words(h: Seq<u32>) -> int {
    6 + 4 * h[3] + 2 * (h[4] + h[5]) + h[4] + 3 * h[5] + 2 * h[2]
}

impl ListView {
    /// The stored bytes.
    pub open spec fn blob(self) -> Seq<u8> {
        words_to_bytes(cat(list_segments(self))) + self.root_bytes
    }

    /// The parts are as long as the header says.
    pub open spec fn shaped(self) -> bool {
        &&& self.header.len() == 6
        &&& self.lookup.len() == self.header[3]
        &&& self.file_headers.len() == self.header[3]
        &&& self.files.len() == self.header[4] + self.header[5]
        &&& self.uncompressed.len() == self.header[4]
        &&& self.compressed.len() == self.header[5]
        &&& self.roots.len() == self.header[2]
        &&& self.root_bytes.len() == self.header[1]
        &&& self.header[4] + self.header[5] <= u32::MAX
    }

    /// The hashes do not decrease, and what is referred to is there.
    pub open spec fn wf(self) -> bool {
        &&& forall|i: int, j: int|
            0 <= i < j < self.lookup.len() ==> (#[trigger] self.lookup[i]).spec_path().0 <= (
            #[trigger] self.lookup[j]).spec_path().0
        &&& forall|i: int|
            0 <= i < self.lookup.len() ==> (#[trigger] self.lookup[i]).spec_index()
                < self.file_headers.len()
        &&& forall|i: int|
            0 <= i < self.file_headers.len() ==> (#[trigger] self.file_headers[i]).start
                + self.file_headers[i].num_files <= self.files.len()
        &&& forall|i: int| 0 <= i < self.file_headers.len() ==> #[trigger] self.run_ok(i)
        &&& forall|i: int|
            0 <= i < self.roots.len() ==> (#[trigger] self.roots[i]).byte_start
                + self.roots[i].byte_count <= self.root_bytes.len()
    }

    /// The sizes and the roots of the files of a run are there.
    pub open spec fn run_ok(self, i: int) -> bool {
        let h = self.file_headers[i];
        forall|j: int| h.start <= j < h.start + h.num_files ==> self.file_ok(#[trigger] self.files[j])
    }

    /// The size and the root of a file are there.
    pub open spec fn file_ok(self, file: File) -> bool {
        let index = file.index;
        &&& if index.spec_is_compressed() {
            index.spec_index() < self.compressed.len()
        } else {
            index.spec_index() < self.uncompressed.len()
        }
        &&& file.root < self.roots.len()
    }

    /// The size of a file.
    pub open spec fn size_of(self, file: File) -> u32 {
        if file.index.spec_is_compressed() {
            self.compressed[file.index.spec_index() as int].decompressed_size
        } else {
            self.uncompressed[file.index.spec_index() as int].size
        }
    }

    /// The run of files with index `i`.
    pub open spec fn run(self, i: int) -> Seq<File> {
        let h = self.file_headers[i];
        self.files.subrange(h.start as int, h.start + h.num_files)
    }

    /// The path of root `i`.
    pub open spec fn root(self, i: int) -> Seq<u8> {
        let r = self.roots[i];
        self.root_bytes.subrange(r.byte_start as int, r.byte_start + r.byte_count)
    }
}

/// The last file of a run that is for `r`.
pub open spec fn last_for(s: Seq<File>, r: Regionalized) -> Option<File>
    decreases s.len(),
{
    if s.len() == 0 {
        None
    } else if s.last().index.regionalized() == r {
        Some(s.last())
    } else {
        last_for(s.drop_last(), r)
    }
}

pub open spec fn or_else(a: Option<File>, b: Option<File>) -> Option<File> {
    if a is Some {
        a
    } else {
        b
    }
}

/// The file of a run to load under the preferences: that of the locale before that of the language,
/// that of the region, and the one for all.
pub open spec fn pick(s: Seq<File>, prefs: LocalePreferences) -> Option<File> {
    or_else(
        last_for(s, Regionalized::Locale(prefs.locale.number() as u8)),
        or_else(
            last_for(s, Regionalized::Language(prefs.language.number() as u8)),
            or_else(
                last_for(s, Regionalized::Region(prefs.region.number() as u8)),
                last_for(s, Regionalized::Base),
            ),
        ),
    )
}

impl ListView {
    /// Position of the first hash of a path, or the number of paths.
    pub open spec fn find(self, hash: Hash40) -> Option<int> {
        if exists|i: int| 0 <= i < self.lookup.len() && (#[trigger] self.lookup[i]).spec_path() == hash {
            Some(
                choose|i: int|
                    0 <= i < self.lookup.len() && (#[trigger] self.lookup[i]).spec_path() == hash
                        && forall|j: int| 0 <= j < i ==> (#[trigger] self.lookup[j]).spec_path() != hash,
            )
        } else {
            None
        }
    }

    /// The file to load for a path under the preferences.
    pub open spec fn file_for(self, hash: Hash40, prefs: LocalePreferences) -> Option<File> {
        match self.find(hash) {
            Some(i) => pick(self.run(self.lookup[i].spec_index() as int), prefs),
            None => None,
        }
    }
}

/// Are the bytes as long as their header says?
pub open spec fn list_fits(b: Seq<u8>) -> bool {
    let w = bytes_to_words(b);
    &&& w.len() >= 6
    &&& w[4] + w[5] <= u32::MAX
    &&& b.len() == 4 * list_words(w) + w[1]
}

/// Are the bytes as long as their header says?
pub fn list_bytes_fit(bytes: &[u8]) -> (r: bool)
    ensures
        r == list_fits(bytes@),
{
    let w = read_words(bytes);
    if w.len() < 6 {
        return false;
    }
    let files: u64 = w[4] as u64 + w[5] as u64;
    if files > 0xFFFF_FFFF {
        return false;
    }
    let words: u64 = 6 + 4 * w[3] as u64 + 2 * files + w[4] as u64 + 3 * w[5] as u64 + 2 * w[2] as u64;
    bytes.len() as u64 == 4 * words + w[1] as u64
}

/// The files that mods bring along, read from their list.
pub struct FileSystem {
    header: Vec<u32>,
    lookup: Vec<HashedFile>,
    file_headers: Vec<FileHeader>,
    files: Vec<File>,
    uncompressed: Vec<UncompressedFile>,
    compressed: Vec<CompressedFile>,
    roots: Vec<Root>,
    root_bytes: Vec<u8>,
}

impl View for FileSystem {
    type V = ListView;

    closed spec fn view(&self) -> ListView {
        ListView {
            header: self.header@,
            lookup: self.lookup@,
            file_headers: self.file_headers@,
            files: self.files@,
            uncompressed: self.uncompressed@,
            compressed: self.compressed@,
            roots: self.roots@,
            root_bytes: self.root_bytes@,
        }
    }
}

proof fn lemma_list_assembled(w: Seq<u32>, v: ListView, c0: int, c1: int, c2: int, c3: int, c4: int, c5: int, c6: int)
    requires
        0 <= c0 <= c1 <= c2 <= c3 <= c4 <= c5 <= c6 <= w.len(),
        v.header == w.subrange(0, c0),
        flat(v.lookup) == w.subrange(c0, c1),
        flat(v.file_headers) == w.subrange(c1, c2),
        flat(v.files) == w.subrange(c2, c3),
        flat(v.uncompressed) == w.subrange(c3, c4),
        flat(v.compressed) == w.subrange(c4, c5),
        flat(v.roots) == w.subrange(c5, c6),
    ensures
        cat(list_segments(v)) == w.take(c6),
{
    let s0 = Seq::<Seq<u32>>::empty();
    let s1 = s0.push(v.header);
    let s2 = s1.push(flat(v.lookup));
    let s3 = s2.push(flat(v.file_headers));
    let s4 = s3.push(flat(v.files));
    let s5 = s4.push(flat(v.uncompressed));
    let s6 = s5.push(flat(v.compressed));
    let s7 = s6.push(flat(v.roots));
    lemma_cat_push(s0, v.header);
    lemma_cat_push(s1, flat(v.lookup));
    lemma_cat_push(s2, flat(v.file_headers));
    lemma_cat_push(s3, flat(v.files));
    lemma_cat_push(s4, flat(v.uncompressed));
    lemma_cat_push(s5, flat(v.compressed));
    lemma_cat_push(s6, flat(v.roots));
    assert(cat(s1) =~= w.take(c0));
    assert(cat(s2) =~= w.take(c1));
    assert(cat(s3) =~= w.take(c2));
    assert(cat(s4) =~= w.take(c3));
    assert(cat(s5) =~= w.take(c4));
    assert(cat(s6) =~= w.take(c5));
    assert(cat(s7) =~= w.take(c6));
    assert(s7 =~= list_segments(v));
}

fn copy_words(w: &Vec<u32>, n: usize) -> (r: Vec<u32>)
    requires
        n <= w@.len(),
    ensures
        r@ == w@.take(n as int),
{
    let mut r: Vec<u32> = Vec::new();
    let mut i: usize = 0;
    while i < n
        invariant
            i <= n <= w@.len(),
            r@ =~= w@.take(i as int),
        decreases n - i,
    {
        r.push(w[i]);
        i += 1;
    }
    r
}

fn copy_from(b: &[u8], from: usize) -> (r: Vec<u8>)
    requires
        from <= b@.len(),
    ensures
        r@ == b@.skip(from as int),
{
    let n: usize = b.len();
    let mut r: Vec<u8> = Vec::new();
    let mut i: usize = from;
    while i < n
        invariant
            from <= i <= n == b@.len(),
            r@ =~= b@.subrange(from as int, i as int),
        decreases n - i,
    {
        r.push(b[i]);
        i += 1;
    }
    r
}

impl FileSystem {
    pub open spec fn wf(&self) -> bool {
        self@.wf()
    }

    /// Reads a list of files.
    pub fn from_bytes(bytes: &[u8]) -> (r: FileSystem)
        requires
            list_fits(bytes@),
        ensures
            r@.shaped(),
            r@.blob() == bytes@,
    {
        let total: usize = bytes.len();
        let w = read_words(bytes);
        let len: usize = w.len();
        let header = copy_words(&w, 6);
        let paths: usize = w[3] as usize;
        let plain: usize = w[4] as usize;
        let packed: usize = w[5] as usize;
        let root_count: usize = w[2] as usize;
        let c0: usize = 6;
        let lookup: Vec<HashedFile> = read_records(&w, c0, paths);
        let c1: usize = c0 + 2 * paths;
        let file_headers: Vec<FileHeader> = read_records(&w, c1, paths);
        let c2: usize = c1 + 2 * paths;
        let files: Vec<File> = read_records(&w, c2, plain + packed);
        let c3: usize = c2 + 2 * (plain + packed);
        let uncompressed: Vec<UncompressedFile> = read_records(&w, c3, plain);
        let c4: usize = c3 + plain;
        let compressed: Vec<CompressedFile> = read_records(&w, c4, packed);
        let c5: usize = c4 + 3 * packed;
        let roots: Vec<Root> = read_records(&w, c5, root_count);
        let c6: usize = c5 + 2 * root_count;
        let root_bytes = copy_from(bytes, 4 * c6);
        let r = FileSystem {
            header,
            lookup,
            file_headers,
            files,
            uncompressed,
            compressed,
            roots,
            root_bytes,
        };
        proof {
            assert(r@.header =~= w@.subrange(0, 6));
            lemma_list_assembled(
                w@,
                r@,
                c0 as int,
                c1 as int,
                c2 as int,
                c3 as int,
                c4 as int,
                c5 as int,
                c6 as int,
            );
            lemma_split(w@, tail_bytes(bytes@), c6 as int);
            law_bytes_words_round_trip(bytes@);
        }
        r
    }
}

proof fn lemma_split(w: Seq<u32>, tail: Seq<u8>, n: int)
    requires
        0 <= n <= w.len(),
    ensures
        words_to_bytes(w.take(n)) + (words_to_bytes(w) + tail).skip(4 * n) == words_to_bytes(w)
            + tail,
{
    assert(w.take(n) + w.skip(n) =~= w);
    lemma_words_to_bytes_concat(w.take(n), w.skip(n));
    law_words_bytes_round_trip(w.take(n));
    lemma_rejoin(words_to_bytes(w.take(n)), words_to_bytes(w.skip(n)), tail);
}

proof fn lemma_rejoin(a: Seq<u8>, b: Seq<u8>, c: Seq<u8>)
    ensures
        a + (a + b + c).skip(a.len() as int) == a + b + c,
{
    assert(a + (a + b + c).skip(a.len() as int) =~= a + b + c);
}


impl FileSystem {
    pub fn checksum(&self) -> (r: u32)
        requires
            self@.shaped(),
        ensures
            r == self@.header[0],
    {
        self.header[0]
    }

    /// Is what is referred to there, and are the hashes sorted?
    pub fn is_valid(&self) -> (r: bool)
        ensures
            r == self.wf(),
    {
        let mut i: usize = 0;
        while i < self.lookup.len()
            invariant
                i <= self@.lookup.len(),
                forall|a: int, b: int|
                    0 <= a < b < i ==> (#[trigger] self@.lookup[a]).spec_path().0 <= (
                    #[trigger] self@.lookup[b]).spec_path().0,
                forall|a: int|
                    0 <= a < i ==> (#[trigger] self@.lookup[a]).spec_index()
                        < self@.file_headers.len(),
            decreases self@.lookup.len() - i,
        {
            if self.lookup[i].index() as usize >= self.file_headers.len() {
                proof {
                    assert(self@.lookup[i as int].spec_index() >= self@.file_headers.len());
                }
                return false;
            }
            if i > 0 && self.lookup[i - 1].path().raw() > self.lookup[i].path().raw() {
                proof {
                    assert(self@.lookup[i - 1].spec_path().0 > self@.lookup[i as int].spec_path().0);
                }
                return false;
            }
            proof {
                assert forall|a: int, b: int| 0 <= a < b < i + 1 implies (
                #[trigger] self@.lookup[a]).spec_path().0 <= (
                #[trigger] self@.lookup[b]).spec_path().0 by {
                    if b == i && a < i - 1 {
                        assert(self@.lookup[a].spec_path().0 <= self@.lookup[i - 1].spec_path().0);
                    }
                }
            }
            i += 1;
        }
        let mut i: usize = 0;
        while i < self.file_headers.len()
            invariant
                i <= self@.file_headers.len(),
                forall|a: int|
                    0 <= a < i ==> (#[trigger] self@.file_headers[a]).start
                        + self@.file_headers[a].num_files <= self@.files.len(),
                forall|a: int| 0 <= a < i ==> #[trigger] self@.run_ok(a),
            decreases self@.file_headers.len() - i,
        {
            let h = self.file_headers[i];
            proof {
                assert(self@.file_headers[i as int] == h);
            }
            if h.start as u64 + h.num_files as u64 > self.files.len() as u64 {
                return false;
            }
            if !self.is_run_valid(i) {
                proof {
                    assert(!self@.run_ok(i as int));
                }
                return false;
            }
            i += 1;
        }
        let mut i: usize = 0;
        while i < self.roots.len()
            invariant
                i <= self@.roots.len(),
                forall|a: int|
                    0 <= a < i ==> (#[trigger] self@.roots[a]).byte_start + self@.roots[a].byte_count
                        <= self@.root_bytes.len(),
            decreases self@.roots.len() - i,
        {
            let root = self.roots[i];
            if root.byte_start as u64 + root.byte_count as u64 > self.root_bytes.len() as u64 {
                proof {
                    assert(self@.roots[i as int] == root);
                }
                return false;
            }
            i += 1;
        }
        true
    }

    fn is_run_valid(&self, i: usize) -> (r: bool)
        requires
            i < self@.file_headers.len(),
            self@.file_headers[i as int].start + self@.file_headers[i as int].num_files
                <= self@.files.len(),
        ensures
            r == self@.run_ok(i as int),
    {
        let h = self.file_headers[i];
        let len: usize = self.files.len();
        let end: usize = h.start as usize + h.num_files as usize;
        let mut j: usize = h.start as usize;
        while j < end
            invariant
                i < self@.file_headers.len(),
                h == self@.file_headers[i as int],
                h.start <= j <= end,
                end == h.start + h.num_files,
                end <= self@.files.len(),
                forall|a: int| h.start <= a < j ==> self@.file_ok(#[trigger] self@.files[a]),
            decreases end - j,
        {
            let file = self.files[j];
            let n: usize = if file.index.is_compressed() {
                self.compressed.len()
            } else {
                self.uncompressed.len()
            };
            if file.index.index() as usize >= n || file.root as usize >= self.roots.len() {
                proof {
                    assert(!self@.file_ok(self@.files[j as int]));
                }
                return false;
            }
            j += 1;
        }
        true
    }

    /// The bytes of the list.
    pub fn raw(&self) -> (r: Vec<u8>)
        ensures
            r@ == self@.blob(),
    {
        write_list(
            &self.header,
            &self.lookup,
            &self.file_headers,
            &self.files,
            &self.uncompressed,
            &self.compressed,
            &self.roots,
            &self.root_bytes,
        )
    }

    /// The size of a file.
    pub fn get_decompressed_size(&self, file: &File) -> (r: u32)
        requires
            if file.index.spec_is_compressed() {
                file.index.spec_index() < self@.compressed.len()
            } else {
                file.index.spec_index() < self@.uncompressed.len()
            },
        ensures
            r == self@.size_of(*file),
    {
        if file.index.is_compressed() {
            self.compressed[file.index.index() as usize].decompressed_size
        } else {
            self.uncompressed[file.index.index() as usize].size
        }
    }

    /// Where a compressed file lies in its zip file.
    pub fn compressed_file(&self, file: &File) -> (r: Option<CompressedFile>)
        ensures
            r == if file.index.spec_is_compressed() && file.index.spec_index()
                < self@.compressed.len() {
                Some(self@.compressed[file.index.spec_index() as int])
            } else {
                None
            },
    {
        let i: usize = file.index.index() as usize;
        if file.index.is_compressed() && i < self.compressed.len() {
            Some(self.compressed[i])
        } else {
            None
        }
    }

    /// The file of a run to load under the preferences.
    fn get_file_by_header(&self, header_idx: u32, preferences: LocalePreferences) -> (r: Option<File>)
        requires
            self.wf(),
            header_idx < self@.file_headers.len(),
        ensures
            r == pick(self@.run(header_idx as int), preferences),
            r matches Some(f) ==> self@.file_ok(f),
    {
        let header = self.file_headers[header_idx as usize];
        let ghost run = self@.run(header_idx as int);
        proof {
            assert(self@.file_headers[header_idx as int].start + self@.file_headers[header_idx as int].num_files
                <= self@.files.len());
        }
        let locale = Regionalized::Locale(preferences.locale.index() as u8);
        let language = Regionalized::Language(preferences.language.index() as u8);
        let region = Regionalized::Region(preferences.region.index() as u8);
        let mut locale_match: Option<File> = None;
        let mut language_match: Option<File> = None;
        let mut region_match: Option<File> = None;
        let mut base_match: Option<File> = None;
        let n: u32 = header.num_files;
        let mut i: u32 = 0;
        proof {
            assert(run.take(0) =~= Seq::empty());
        }
        while i < n
            invariant
                run == self@.run(header_idx as int),
                header == self@.file_headers[header_idx as int],
                header.start + n <= self@.files.len(),
                n == header.num_files == run.len(),
                i <= n,
                locale_match == last_for(run.take(i as int), locale),
                language_match == last_for(run.take(i as int), language),
                region_match == last_for(run.take(i as int), region),
                base_match == last_for(run.take(i as int), Regionalized::Base),
                locale is Locale && language is Language && region is Region,
            decreases n - i,
        {
            let len: usize = self.files.len();
            let file = self.files[header.start as usize + i as usize];
            proof {
                assert(run[i as int] == file);
                assert(run.take(i + 1).drop_last() =~= run.take(i as int));
                assert(run.take(i + 1).last() == file);
            }
            let r = file.index.get_regionalized();
            if r == Regionalized::Base {
                base_match = Some(file);
            } else if r == locale {
                locale_match = Some(file);
            } else if r == language {
                language_match = Some(file);
            } else if r == region {
                region_match = Some(file);
            }
            i += 1;
        }
        proof {
            assert(run.take(i as int) =~= run);
            lemma_last_for(run, locale);
            lemma_last_for(run, language);
            lemma_last_for(run, region);
            lemma_last_for(run, Regionalized::Base);
            if let Some(f) = pick(run, preferences) {
                let j = choose|j: int| 0 <= j < run.len() && run[j] == f;
                assert(self@.run_ok(header_idx as int));
                assert(self@.files[header.start + j] == f);
            }
        }
        if locale_match.is_some() {
            locale_match
        } else if language_match.is_some() {
            language_match
        } else if region_match.is_some() {
            region_match
        } else {
            base_match
        }
    }

    /// The file to load for a path under the preferences.
    pub fn lookup_file(&self, hash: Hash40, preferences: LocalePreferences) -> (r: Option<File>)
        requires
            self.wf(),
        ensures
            r == self@.file_for(hash, preferences),
            r matches Some(f) ==> self@.file_ok(f),
    {
        let mut lo: usize = 0;
        let mut hi: usize = self.lookup.len();
        while lo < hi
            invariant
                self.wf(),
                lo <= hi <= self@.lookup.len(),
                forall|i: int| 0 <= i < lo ==> (#[trigger] self@.lookup[i]).spec_path().0 < hash.0,
                forall|i: int|
                    hi <= i < self@.lookup.len() ==> (#[trigger] self@.lookup[i]).spec_path().0
                        >= hash.0,
            decreases hi - lo,
        {
            let mid: usize = lo + (hi - lo) / 2;
            if self.lookup[mid].path().raw() < hash.raw() {
                proof {
                    assert forall|i: int| 0 <= i < mid + 1 implies (
                    #[trigger] self@.lookup[i]).spec_path().0 < hash.0 by {
                        if i < mid {
                            assert(self@.lookup[i].spec_path().0
                                <= self@.lookup[mid as int].spec_path().0);
                        }
                    }
                }
                lo = mid + 1;
            } else {
                proof {
                    assert forall|i: int| mid <= i < self@.lookup.len() implies (
                    #[trigger] self@.lookup[i]).spec_path().0 >= hash.0 by {
                        if i > mid {
                            assert(self@.lookup[mid as int].spec_path().0
                                <= self@.lookup[i].spec_path().0);
                        }
                    }
                }
                hi = mid;
            }
        }
        if lo < self.lookup.len() && self.lookup[lo].path() == hash {
            proof {
                lemma_find(self@, hash, lo as int);
                assert(self@.lookup[lo as int].spec_index() < self@.file_headers.len());
            }
            self.get_file_by_header(self.lookup[lo].index(), preferences)
        } else {
            proof {
                assert forall|i: int| 0 <= i < self@.lookup.len() implies (
                #[trigger] self@.lookup[i]).spec_path() != hash by {
                    if i > lo {
                        assert(self@.lookup[lo as int].spec_path().0 <= self@.lookup[i].spec_path().0);
                    }
                }
            }
            None
        }
    }

    /// The path of a root.
    pub fn get_root(&self, root_idx: u32) -> (r: Vec<u8>)
        requires
            self.wf(),
            root_idx < self@.roots.len(),
        ensures
            r@ == self@.root(root_idx as int),
    {
        let root = self.roots[root_idx as usize];
        proof {
            assert(self@.roots[root_idx as int].byte_start + self@.roots[root_idx as int].byte_count
                <= self@.root_bytes.len());
        }
        let len: usize = self.root_bytes.len();
        let end: usize = root.byte_start as usize + root.byte_count as usize;
        let mut r: Vec<u8> = Vec::new();
        let mut i: usize = root.byte_start as usize;
        while i < end
            invariant
                root.byte_start <= i <= end,
                end == root.byte_start + root.byte_count,
                end <= self@.root_bytes.len(),
                r@ =~= self@.root_bytes.subrange(root.byte_start as int, i as int),
            decreases end - i,
        {
            r.push(self.root_bytes[i]);
            i += 1;
        }
        r
    }

    /// The paths that a file replaces under the preferences, and the sizes of the files.
    pub fn iter_file_sizes(&self, preferences: LocalePreferences) -> (r: Vec<(Hash40, u32)>)
        requires
            self.wf(),
        ensures
            r@ == file_sizes(self@, self@.lookup.len() as int, preferences),
    {
        let mut r: Vec<(Hash40, u32)> = Vec::new();
        let mut i: usize = 0;
        while i < self.lookup.len()
            invariant
                self.wf(),
                i <= self@.lookup.len(),
                r@ == file_sizes(self@, i as int, preferences),
            decreases self@.lookup.len() - i,
        {
            let hashed = self.lookup[i];
            proof {
                assert(self@.lookup[i as int].spec_index() < self@.file_headers.len());
            }
            if let Some(file) = self.get_file_by_header(hashed.index(), preferences) {
                r.push((hashed.path(), self.get_decompressed_size(&file)));
            }
            i += 1;
        }
        r
    }

    /// The paths that a file replaces under the preferences.
    pub fn iter_file_paths(&self, preferences: LocalePreferences) -> (r: Vec<Hash40>)
        requires
            self.wf(),
        ensures
            r@ == file_sizes(self@, self@.lookup.len() as int, preferences).map_values(
                |e: (Hash40, u32)| e.0,
            ),
    {
        let sizes = self.iter_file_sizes(preferences);
        let mut r: Vec<Hash40> = Vec::new();
        let mut i: usize = 0;
        while i < sizes.len()
            invariant
                i <= sizes@.len(),
                r@ =~= sizes@.take(i as int).map_values(|e: (Hash40, u32)| e.0),
            decreases sizes@.len() - i,
        {
            r.push(sizes[i].0);
            i += 1;
        }
        proof {
            assert(sizes@.take(i as int) =~= sizes@);
        }
        r
    }
}

/// Those of the first `n` paths that a file replaces under the preferences, and the sizes of the files.
pub open spec fn file_sizes(v: ListView, n: int, prefs: LocalePreferences) -> Seq<(Hash40, u32)>
    decreases n,
{
    if n <= 0 {
        Seq::empty()
    } else {
        let front = file_sizes(v, n - 1, prefs);
        let hashed = v.lookup[n - 1];
        match pick(v.run(hashed.spec_index() as int), prefs) {
            Some(file) => front.push((hashed.spec_path(), v.size_of(file))),
            None => front,
        }
    }
}

proof fn lemma_last_for(s: Seq<File>, r: Regionalized)
    ensures
        last_for(s, r) matches Some(f) ==> f.index.regionalized() == r && exists|j: int|
            0 <= j < s.len() && s[j] == f,
        last_for(s, r) is None ==> forall|j: int|
            0 <= j < s.len() ==> (#[trigger] s[j]).index.regionalized() != r,
    decreases s.len(),
{
    if s.len() > 0 {
        let t = s.drop_last();
        lemma_last_for(t, r);
        if s.last().index.regionalized() == r {
            assert(s[s.len() - 1] == s.last());
        } else if last_for(t, r) is Some {
            let j = choose|j: int| 0 <= j < t.len() && t[j] == last_for(t, r)->0;
            assert(s[j] == t[j]);
        } else {
            assert forall|j: int| 0 <= j < s.len() implies (#[trigger] s[j]).index.regionalized()
                != r by {
                if j < t.len() {
                    assert(t[j] == s[j]);
                }
            }
        }
    }
}

proof fn lemma_find(v: ListView, hash: Hash40, i: int)
    requires
        0 <= i < v.lookup.len(),
        v.lookup[i].spec_path() == hash,
        forall|j: int| 0 <= j < i ==> (#[trigger] v.lookup[j]).spec_path() != hash,
    ensures
        v.find(hash) == Some(i),
{
    let k = choose|k: int|
        0 <= k < v.lookup.len() && (#[trigger] v.lookup[k]).spec_path() == hash && forall|j: int|
            0 <= j < k ==> (#[trigger] v.lookup[j]).spec_path() != hash;
    assert(0 <= k < v.lookup.len() && v.lookup[k].spec_path() == hash && forall|j: int|
        0 <= j < k ==> (#[trigger] v.lookup[j]).spec_path() != hash) by {
        assert(v.lookup[i].spec_path() == hash);
    }
    if k < i {
        assert(v.lookup[k].spec_path() != hash);
    } else if i < k {
        assert(v.lookup[i].spec_path() != hash);
    }
}

/// Writes a list of files.
fn write_list(
    header: &Vec<u32>,
    lookup: &Vec<HashedFile>,
    file_headers: &Vec<FileHeader>,
    files: &Vec<File>,
    uncompressed: &Vec<UncompressedFile>,
    compressed: &Vec<CompressedFile>,
    roots: &Vec<Root>,
    root_bytes: &Vec<u8>,
) -> (r: Vec<u8>)
    ensures
        r@ == (ListView {
            header: header@,
            lookup: lookup@,
            file_headers: file_headers@,
            files: files@,
            uncompressed: uncompressed@,
            compressed: compressed@,
            roots: roots@,
            root_bytes: root_bytes@,
        }).blob(),
{
    let ghost v = ListView {
        header: header@,
        lookup: lookup@,
        file_headers: file_headers@,
        files: files@,
        uncompressed: uncompressed@,
        compressed: compressed@,
        roots: roots@,
        root_bytes: root_bytes@,
    };
    let mut w = copy_words(header, header.len());
    write_records(lookup, &mut w);
    write_records(file_headers, &mut w);
    write_records(files, &mut w);
    write_records(uncompressed, &mut w);
    write_records(compressed, &mut w);
    write_records(roots, &mut w);
    proof {
        assert(header@.take(header@.len() as int) =~= header@);
        lemma_list_words(v);
        assert(w@ == cat(list_segments(v)));
    }
    let mut r = write_words(&w);
    let ghost front = r@;
    let mut i: usize = 0;
    while i < root_bytes.len()
        invariant
            i <= root_bytes@.len(),
            r@ =~= front + root_bytes@.take(i as int),
        decreases root_bytes@.len() - i,
    {
        r.push(root_bytes[i]);
        i += 1;
    }
    proof {
        assert(root_bytes@.take(i as int) =~= root_bytes@);
    }
    r
}

proof fn lemma_list_words(v: ListView)
    ensures
        cat(list_segments(v)) == v.header + flat(v.lookup) + flat(v.file_headers) + flat(v.files) + flat(
            v.uncompressed,
        ) + flat(v.compressed) + flat(v.roots),
        list_segments(v).len() == 7,
{
    let s0 = Seq::<Seq<u32>>::empty();
    let s1 = s0.push(v.header);
    let s2 = s1.push(flat(v.lookup));
    let s3 = s2.push(flat(v.file_headers));
    let s4 = s3.push(flat(v.files));
    let s5 = s4.push(flat(v.uncompressed));
    let s6 = s5.push(flat(v.compressed));
    let s7 = s6.push(flat(v.roots));
    lemma_cat_push(s0, v.header);
    lemma_cat_push(s1, flat(v.lookup));
    lemma_cat_push(s2, flat(v.file_headers));
    lemma_cat_push(s3, flat(v.files));
    lemma_cat_push(s4, flat(v.uncompressed));
    lemma_cat_push(s5, flat(v.compressed));
    lemma_cat_push(s6, flat(v.roots));
    assert(cat(s1) =~= v.header);
    assert(s7 =~= list_segments(v));
}


/// What a [`Discovery`] holds.
pub struct DiscoveryView {
    pub compressed_files: nat,
    pub uncompressed_files: nat,
    pub roots: Seq<Seq<char>>,
    pub files: Map<u64, FilesView>,
    pub checksum: u32,
}

/// State of writing a list: the paths, the runs, the files and the sizes so far.
pub struct Emitted {
    pub lookup: Seq<HashedFile>,
    pub file_headers: Seq<FileHeader>,
    pub files: Seq<File>,
    pub uncompressed: Seq<UncompressedFile>,
    pub compressed: Seq<CompressedFile>,
}

impl Emitted {
    pub open spec fn empty() -> Emitted {
        Emitted {
            lookup: Seq::empty(),
            file_headers: Seq::empty(),
            files: Seq::empty(),
            uncompressed: Seq::empty(),
            compressed: Seq::empty(),
        }
    }
}

/// One more file. Its size goes to the compressed or the uncompressed files.
pub open spec fn emit_file(e: Emitted, f: DiscoveredFile) -> Emitted {
    let r = Regionalized::of(f.regional);
    match f.file {
        LoadableFile::ZipFile { compressed_size, decompressed_size, compressed_start } => Emitted {
            files: e.files.push(
                File {
                    root: f.root_idx,
                    index: FileIndex::of(r, true, e.compressed.len() as u32),
                },
            ),
            compressed: e.compressed.push(
                CompressedFile { compressed_start, compressed_size, decompressed_size },
            ),
            ..e
        },
        LoadableFile::UncompressedOnDisk => Emitted {
            files: e.files.push(
                File {
                    root: f.root_idx,
                    index: FileIndex::of(r, false, e.uncompressed.len() as u32),
                },
            ),
            uncompressed: e.uncompressed.push(UncompressedFile { size: f.size }),
            ..e
        },
    }
}

/// The first `n` files, one after the other.
pub open spec fn emit_files(e: Emitted, files: Seq<DiscoveredFile>, n: int) -> Emitted
    decreases n,
{
    if n <= 0 {
        e
    } else {
        emit_file(emit_files(e, files, n - 1), files[n - 1])
    }
}

/// One more path, with the run of files that replace it.
pub open spec fn emit_path(e: Emitted, k: u64, files: FilesView) -> Emitted {
    let f = emit_files(e, files.ordered(), files.ordered().len() as int);
    Emitted {
        lookup: f.lookup.push(HashedFile::of(Hash40(k), e.file_headers.len() as u32)),
        file_headers: f.file_headers.push(
            FileHeader { start: e.files.len() as u32, num_files: files.ordered().len() as u32 },
        ),
        ..f
    }
}

/// The first `n` paths, one after the other.
pub open spec fn emit_paths(files: Map<u64, FilesView>, keys: Seq<u64>, n: int) -> Emitted
    decreases n,
{
    if n <= 0 {
        Emitted::empty()
    } else {
        emit_path(emit_paths(files, keys, n - 1), keys[n - 1], files[keys[n - 1]])
    }
}

/// A run of records that is filled up to a length.
pub open spec fn padded<T>(s: Seq<T>, n: nat, filler: T) -> Seq<T> {
    s + Seq::new((n - s.len()) as nat, |i: int| filler)
}

/// The bytes of the first `n` roots' paths, one behind the other.
pub open spec fn root_text(roots: Seq<Seq<char>>, n: int) -> Seq<u8>
    decreases n,
{
    if n <= 0 {
        Seq::empty()
    } else {
        root_text(roots, n - 1) + encode_utf8(roots[n - 1])
    }
}

/// Where the paths of the roots lie.
pub open spec fn root_records(roots: Seq<Seq<char>>) -> Seq<Root> {
    Seq::new(
        roots.len(),
        |i: int|
            Root {
                byte_start: root_text(roots, i).len() as u32,
                byte_count: encode_utf8(roots[i]).len() as u32,
            },
    )
}

/// The roots of all files are among the first `n`.
pub open spec fn rooted(files: FilesView, n: nat) -> bool {
    forall|r: Option<Regional>| #[trigger]
        FilesView::has_place(r) ==> (files.at(r) matches Some(f) ==> f.root_idx < n)
}

impl DiscoveryView {
    pub open spec fn wf(self) -> bool {
        &&& self.files.dom().finite()
        &&& forall|k: u64| #[trigger]
            self.files.contains_key(k) ==> k < 0x100_0000_0000 && self.files[k].wf()
                && self.files[k].placed() && rooted(self.files[k], self.roots.len())
    }

    pub open spec fn keys(self) -> Seq<u64> {
        key_listing(self.files.dom())
    }

    pub open spec fn emitted(self) -> Emitted {
        emit_paths(self.files, self.keys(), self.keys().len() as int)
    }

    /// The list of what was discovered. Space that is set aside for files that were replaced by others
    /// is filled up.
    pub open spec fn listed(self) -> ListView {
        let e = self.emitted();
        let text = root_text(self.roots, self.roots.len() as int);
        ListView {
            header: seq![
                self.checksum,
                text.len() as u32,
                self.roots.len() as u32,
                self.keys().len() as u32,
                self.uncompressed_files as u32,
                self.compressed_files as u32,
            ],
            lookup: e.lookup,
            file_headers: e.file_headers,
            files: padded(
                e.files,
                self.uncompressed_files + self.compressed_files,
                File { root: 0, index: FileIndex { bits: 0 } },
            ),
            uncompressed: padded(
                e.uncompressed,
                self.uncompressed_files,
                UncompressedFile { size: 0 },
            ),
            compressed: padded(
                e.compressed,
                self.compressed_files,
                CompressedFile { compressed_start: 0, compressed_size: 0, decompressed_size: 0 },
            ),
            roots: root_records(self.roots),
            root_bytes: text,
        }
    }

    /// The files do not outnumber what was counted, and the counts fit the header.
    pub open spec fn listable(self) -> bool {
        let e = self.emitted();
        &&& e.uncompressed.len() <= self.uncompressed_files
        &&& e.compressed.len() <= self.compressed_files
        &&& self.uncompressed_files + self.compressed_files <= u32::MAX
        &&& self.keys().len() <= u32::MAX
        &&& self.roots.len() <= u32::MAX
        &&& root_text(self.roots, self.roots.len() as int).len() <= u32::MAX
    }
}

/// What discovering files changes.
pub struct Discovering {
    pub found: DiscoveryView,
    pub slab: SlabView,
    pub cache: CacheView,
}

/// The state after a file was taken up, or why it cannot be. A file that replaces the same path for the
/// same as an earlier one takes its place. The paths of files in folders have to be short enough for a
/// hash.
pub open spec fn discovered(
    s: Discovering,
    root_idx: u32,
    path: Seq<char>,
    size: u32,
    file: LoadableFile,
) -> Result<Discovering, DiscoverError> {
    if file is UncompressedOnDisk && encode_utf8(path).len() >= 0x100 {
        Err(DiscoverError::PathTooLong)
    } else {
        added(s, root_idx, path, size, file)
    }
}

/// The state after a file with a path of any length was taken up, or why it cannot be.
pub open spec fn added(
    s: Discovering,
    root_idx: u32,
    path: Seq<char>,
    size: u32,
    file: LoadableFile,
) -> Result<Discovering, DiscoverError> {
    match detect(path) {
        None => Err(DiscoverError::InvalidSuffix),
        Some((target, regional)) => match cached(s.slab, s.cache, target) {
            None => Err(DiscoverError::SlabFull),
            Some((slab, cache, _)) => if !FilesView::has_place(regional) {
                Err(DiscoverError::NoPlace)
            } else {
                let k = hash40_str(target).0;
                let files = if s.found.files.contains_key(k) {
                    s.found.files[k]
                } else {
                    FilesView::empty()
                };
                Ok(
                    Discovering {
                        found: DiscoveryView {
                            compressed_files: s.found.compressed_files + (if file is ZipFile {
                                1nat
                            } else {
                                0
                            }),
                            uncompressed_files: s.found.uncompressed_files + (if file is ZipFile {
                                0nat
                            } else {
                                1
                            }),
                            files: s.found.files.insert(
                                k,
                                files.put(
                                    regional,
                                    DiscoveredFile { root_idx, size, regional, file },
                                ),
                            ),
                            checksum: crc_continued(
                                crc_continued(s.found.checksum, encode_utf8(path)),
                                le_bytes(size),
                            ),
                            ..s.found
                        },
                        slab,
                        cache,
                    },
                )
            },
        },
    }
}

/// Collects what mods bring along, for writing it down.
pub struct Discovery {
    compressed_files: usize,
    uncompressed_files: usize,
    roots: Vec<String>,
    files: BTreeMap<u64, DiscoveredFiles>,
    checksum: u32,
}

impl View for Discovery {
    type V = DiscoveryView;

    closed spec fn view(&self) -> DiscoveryView {
        DiscoveryView {
            compressed_files: self.compressed_files as nat,
            uncompressed_files: self.uncompressed_files as nat,
            roots: self.roots@.map_values(|r: String| r@),
            files: self.files@.map_values(|f: DiscoveredFiles| f@),
            checksum: self.checksum,
        }
    }
}

impl Discovery {
    pub open spec fn wf(&self) -> bool {
        self@.wf()
    }

    pub fn new() -> (r: Discovery)
        ensures
            r@ == (DiscoveryView {
                compressed_files: 0,
                uncompressed_files: 0,
                roots: Seq::empty(),
                files: Map::empty(),
                checksum: 0,
            }),
            r.wf(),
    {
        let r = Discovery {
            compressed_files: 0,
            uncompressed_files: 0,
            roots: Vec::new(),
            files: BTreeMap::new(),
            checksum: 0,
        };
        proof {
            assert(r@.roots =~= Seq::empty());
            assert(r@.files =~= Map::empty());
        }
        r
    }

    /// Takes up a folder or a zip file as a root and returns its index.
    pub fn add_root(&mut self, path: &str) -> (r: Option<u32>)
        requires
            old(self).wf(),
        ensures
            final(self).wf(),
            match r {
                Some(i) => i == old(self)@.roots.len() && final(self)@ == (DiscoveryView {
                    roots: old(self)@.roots.push(path@),
                    checksum: crc_continued(old(self)@.checksum, encode_utf8(path@)),
                    ..old(self)@
                }),
                None => old(self)@.roots.len() > u32::MAX && final(self)@ == old(self)@,
            },
    {
        if self.roots.len() > 0xFFFF_FFFF {
            return None;
        }
        let i: u32 = self.roots.len() as u32;
        self.checksum = continue_crc(self.checksum, path.as_bytes());
        self.roots.push(String::from_str(path));
        proof {
            assert(self@.roots =~= old(self)@.roots.push(path@));
            assert forall|k: u64| #[trigger] self@.files.contains_key(k) implies rooted(
                self@.files[k],
                self@.roots.len(),
            ) by {
                assert(rooted(old(self)@.files[k], old(self)@.roots.len()));
            }
        }
        Some(i)
    }

    /// Takes up a file.
    pub fn add_file(
        &mut self,
        slab: &mut HashMemorySlab,
        cache: &mut InternerCache,
        root_idx: u32,
        path: &str,
        size: u32,
        file: LoadableFile,
    ) -> (r: Result<(), DiscoverError>)
        requires
            old(self).wf(),
            old(slab).wf(),
            old(slab)@.cache_ok(old(cache)@),
            root_idx < old(self)@.roots.len(),
            old(self)@.compressed_files < usize::MAX,
            old(self)@.uncompressed_files < usize::MAX,
        ensures
            match (
                r,
                discovered(
                    Discovering { found: old(self)@, slab: old(slab)@, cache: old(cache)@ },
                    root_idx,
                    path@,
                    size,
                    file,
                ),
            ) {
                (Ok(()), Ok(t)) => t == (Discovering {
                    found: final(self)@,
                    slab: final(slab)@,
                    cache: final(cache)@,
                }),
                (Err(a), Err(b)) => a == b,
                _ => false,
            },
            r is Ok ==> final(self).wf() && final(slab).wf() && final(slab)@.cache_ok(final(cache)@),
    {
        let ghost v = self@;
        if matches!(file, LoadableFile::UncompressedOnDisk) && path.as_bytes().len() >= 0x100 {
            return Err(DiscoverError::PathTooLong);
        }
        let crc: u32 = continue_crc(self.checksum, path.as_bytes());
        let mut size_bytes: Vec<u8> = Vec::new();
        size_bytes.push(le_byte(size, 0));
        size_bytes.push(le_byte(size, 1));
        size_bytes.push(le_byte(size, 2));
        size_bytes.push(le_byte(size, 3));
        proof {
            lemma_le_bytes(size);
            assert(size_bytes@ =~= le_bytes(size));
        }
        let Some((target, regional)) = detect_regional(path) else {
            return Err(DiscoverError::InvalidSuffix);
        };
        let Some(_result) = cache_path(slab, cache, target.as_str()) else {
            return Err(DiscoverError::SlabFull);
        };
        if let Some(Regional::Language(language)) = regional {
            if language.index() as usize >= LANGUAGE_COUNT {
                return Err(DiscoverError::NoPlace);
            }
        }
        self.checksum = continue_crc(crc, &size_bytes);
        let k: u64 = Hash40::const_new(target.as_str()).raw();
        let mut files = match self.files.remove(&k) {
            Some(files) => files,
            None => DiscoveredFiles::default(),
        };
        let ghost before = files@;
        proof {
            law_hash40_wf(Hash40(0), Hash40(0), encode_utf8(target@));
            assert(before == if v.files.contains_key(k) {
                v.files[k]
            } else {
                FilesView::empty()
            });
            law_files_put(
                before,
                regional,
                DiscoveredFile { root_idx, size, regional, file },
                regional,
                arbitrary(),
            );
        }
        let _previous = files.set_by_regional(
            DiscoveredFile { root_idx, size, regional, file },
            regional,
        );
        let ghost after = files@;
        let _none = self.files.insert(k, files);
        match file {
            LoadableFile::ZipFile { .. } => {
                self.compressed_files += 1;
            },
            LoadableFile::UncompressedOnDisk => {
                self.uncompressed_files += 1;
            },
        }
        proof {
            assert(self@.files =~= v.files.insert(k, after));
            let f = DiscoveredFile { root_idx, size, regional, file };
            assert forall|r: Option<Regional>| #[trigger] FilesView::has_place(r) implies (after.at(
                r,
            ) matches Some(x) ==> x.root_idx < v.roots.len()) by {
                law_files_put(before, regional, f, r, arbitrary());
            }
        }
        Ok(())
    }
}


/// The parts of a list as they are written.
struct Emitter {
    lookup: Vec<HashedFile>,
    file_headers: Vec<FileHeader>,
    files: Vec<File>,
    uncompressed: Vec<UncompressedFile>,
    compressed: Vec<CompressedFile>,
}

impl Emitter {
    spec fn view(&self) -> Emitted {
        Emitted {
            lookup: self.lookup@,
            file_headers: self.file_headers@,
            files: self.files@,
            uncompressed: self.uncompressed@,
            compressed: self.compressed@,
        }
    }

    fn emit_file(&mut self, f: &DiscoveredFile)
        ensures
            final(self)@ == emit_file(old(self)@, *f),
    {
        let r = Regionalized::from_regional(f.regional);
        match f.file {
            LoadableFile::ZipFile { compressed_size, decompressed_size, compressed_start } => {
                let index = FileIndex::from_parts(r, true, self.compressed.len() as u32);
                self.compressed.push(
                    CompressedFile { compressed_start, compressed_size, decompressed_size },
                );
                self.files.push(File { root: f.root_idx, index });
            },
            LoadableFile::UncompressedOnDisk => {
                let index = FileIndex::from_parts(r, false, self.uncompressed.len() as u32);
                self.uncompressed.push(UncompressedFile { size: f.size });
                self.files.push(File { root: f.root_idx, index });
            },
        }
    }

    fn emit_path(&mut self, k: u64, files: &DiscoveredFiles)
        requires
            k < 0x100_0000_0000,
        ensures
            final(self)@ == emit_path(old(self)@, k, files@),
    {
        let ghost e = self@;
        let start: u32 = self.files.len() as u32;
        let ordered = files.iter_priority_ordered();
        let n: usize = ordered.len();
        let mut i: usize = 0;
        while i < n
            invariant
                n == ordered@.len(),
                i <= n,
                self@ == emit_files(e, ordered@, i as int),
            decreases n - i,
        {
            self.emit_file(&ordered[i]);
            i += 1;
        }
        proof {
            lemma_emit_files_parts(e, ordered@, n as int);
        }
        self.lookup.push(HashedFile::new(Hash40::from_raw(k), self.file_headers.len() as u32));
        self.file_headers.push(FileHeader { start, num_files: n as u32 });
    }
}

proof fn lemma_emit_files_parts(e: Emitted, files: Seq<DiscoveredFile>, n: int)
    requires
        0 <= n,
    ensures
        emit_files(e, files, n).lookup == e.lookup,
        emit_files(e, files, n).file_headers == e.file_headers,
        emit_files(e, files, n).files.len() == e.files.len() + n,
        emit_files(e, files, n).uncompressed.len() + emit_files(e, files, n).compressed.len()
            == e.uncompressed.len() + e.compressed.len() + n,
        e.files.is_prefix_of(emit_files(e, files, n).files),
        e.uncompressed.is_prefix_of(emit_files(e, files, n).uncompressed),
        e.compressed.is_prefix_of(emit_files(e, files, n).compressed),
    decreases n,
{
    if n > 0 {
        lemma_emit_files_parts(e, files, n - 1);
        let f = emit_files(e, files, n - 1);
        let g = emit_files(e, files, n);
        assert(e.files =~= g.files.take(e.files.len() as int));
        assert(e.uncompressed =~= g.uncompressed.take(e.uncompressed.len() as int));
        assert(e.compressed =~= g.compressed.take(e.compressed.len() as int));
    } else {
        assert(e.files =~= e.files.take(e.files.len() as int));
        assert(e.uncompressed =~= e.uncompressed.take(e.uncompressed.len() as int));
        assert(e.compressed =~= e.compressed.take(e.compressed.len() as int));
    }
}

fn pad<T: Copy>(s: &mut Vec<T>, n: usize, filler: T)
    requires
        old(s)@.len() <= n,
    ensures
        final(s)@ == padded(old(s)@, n as nat, filler),
{
    let ghost before = s@;
    while s.len() < n
        invariant
            before.len() <= s@.len() <= n,
            s@ =~= padded(before, s@.len(), filler),
        decreases n - s@.len(),
    {
        s.push(filler);
    }
}

impl Discovery {
    /// Writes down what was discovered. `None` if there is too much for the header to count.
    pub fn as_slab(&self) -> (r: Option<Vec<u8>>)
        requires
            self.wf(),
        ensures
            match r {
                Some(b) => self@.listable() && b@ == self@.listed().blob(),
                None => !self@.listable(),
            },
    {
        let ghost v = self@;
        let keys = list_keys(&self.files);
        proof {
            assert(self.files@.dom() =~= v.files.dom());
        }
        let mut e = Emitter {
            lookup: Vec::new(),
            file_headers: Vec::new(),
            files: Vec::new(),
            uncompressed: Vec::new(),
            compressed: Vec::new(),
        };
        let n: usize = keys.len();
        let mut i: usize = 0;
        proof {
            assert(e@ == Emitted::empty());
        }
        while i < n
            invariant
                self.wf(),
                v == self@,
                keys@ == v.keys(),
                is_key_listing(v.files.dom(), keys@),
                n == keys@.len(),
                i <= n,
                e@ == emit_paths(v.files, keys@, i as int),
            decreases n - i,
        {
            let k: u64 = keys[i];
            proof {
                assert(keys@.contains(k));
                assert(v.files.dom().contains(k));
                assert(v.files.contains_key(k));
            }
            if let Some(files) = self.files.get(&k) {
                e.emit_path(k, files);
            }
            i += 1;
        }
        let mut text: Vec<u8> = Vec::new();
        let mut roots: Vec<Root> = Vec::new();
        let m: usize = self.roots.len();
        let mut j: usize = 0;
        while j < m
            invariant
                v == self@,
                m == self.roots@.len(),
                j <= m,
                text@ == root_text(v.roots, j as int),
                roots@ =~= root_records(v.roots).take(j as int),
            decreases m - j,
        {
            let path = self.roots[j].as_str().as_bytes();
            proof {
                assert(v.roots[j as int] == self.roots@[j as int]@);
            }
            roots.push(Root { byte_start: text.len() as u32, byte_count: path.len() as u32 });
            append_slice(&mut text, path);
            j += 1;
        }
        if e.uncompressed.len() > self.uncompressed_files || e.compressed.len() > self.compressed_files
            || self.uncompressed_files > 0xFFFF_FFFF || self.compressed_files > 0xFFFF_FFFF
            || self.uncompressed_files as u64 + self.compressed_files as u64 > 0xFFFF_FFFF || n
            > 0xFFFF_FFFF || m > 0xFFFF_FFFF || text.len() > 0xFFFF_FFFF {
            return None;
        }
        proof {
            lemma_emit_paths_lens(v.files, keys@, n as int);
        }
        let files: usize = self.uncompressed_files + self.compressed_files;
        pad(&mut e.files, files, File { root: 0, index: FileIndex { bits: 0 } });
        pad(&mut e.uncompressed, self.uncompressed_files, UncompressedFile { size: 0 });
        pad(
            &mut e.compressed,
            self.compressed_files,
            CompressedFile { compressed_start: 0, compressed_size: 0, decompressed_size: 0 },
        );
        let mut header: Vec<u32> = Vec::new();
        header.push(self.checksum);
        header.push(text.len() as u32);
        header.push(m as u32);
        header.push(n as u32);
        header.push(self.uncompressed_files as u32);
        header.push(self.compressed_files as u32);
        proof {
            assert(header@ =~= v.listed().header);
            assert(roots@ =~= root_records(v.roots));
        }
        Some(
            write_list(
                &header,
                &e.lookup,
                &e.file_headers,
                &e.files,
                &e.uncompressed,
                &e.compressed,
                &roots,
                &text,
            ),
        )
    }
}

fn append_slice(out: &mut Vec<u8>, b: &[u8])
    ensures
        final(out)@ == old(out)@ + b@,
{
    let mut i: usize = 0;
    while i < b.len()
        invariant
            i <= b@.len(),
            out@ =~= old(out)@ + b@.take(i as int),
        decreases b@.len() - i,
    {
        out.push(b[i]);
        i += 1;
    }
    proof {
        assert(b@.take(b@.len() as int) =~= b@);
    }
}

proof fn lemma_emit_paths_lens(files: Map<u64, FilesView>, keys: Seq<u64>, n: int)
    requires
        0 <= n,
    ensures
        emit_paths(files, keys, n).lookup.len() == n,
        emit_paths(files, keys, n).file_headers.len() == n,
        emit_paths(files, keys, n).files.len() == emit_paths(files, keys, n).uncompressed.len()
            + emit_paths(files, keys, n).compressed.len(),
    decreases n,
{
    if n > 0 {
        lemma_emit_paths_lens(files, keys, n - 1);
        let e = emit_paths(files, keys, n - 1);
        let o = files[keys[n - 1]].ordered();
        lemma_emit_files_parts(e, o, o.len() as int);
    }
}

/// Of a run of files, the last one for the player's locale is taken before that for the language, that
/// before that for the region, and that before that for all. There is none only if no file is for any of
/// these.
pub proof fn law_pick(run: Seq<File>, prefs: LocalePreferences)
    ensures
        ({
            let locale = Regionalized::Locale(prefs.locale.number() as u8);
            let language = Regionalized::Language(prefs.language.number() as u8);
            let region = Regionalized::Region(prefs.region.number() as u8);
            match pick(run, prefs) {
                Some(f) => {
                    let r = f.index.regionalized();
                    &&& run.contains(f)
                    &&& r == locale || r == language || r == region || r == Regionalized::Base
                    &&& forall|j: int|
                        0 <= j < run.len() ==> {
                            let q = (#[trigger] run[j]).index.regionalized();
                            &&& q == locale ==> r == locale
                            &&& q == language ==> r == locale || r == language
                            &&& q == region ==> r != Regionalized::Base
                        }
                },
                None => forall|j: int|
                    0 <= j < run.len() ==> {
                        let q = (#[trigger] run[j]).index.regionalized();
                        q != locale && q != language && q != region && q != Regionalized::Base
                    },
            }
        }),
{
    lemma_last_for(run, Regionalized::Locale(prefs.locale.number() as u8));
    lemma_last_for(run, Regionalized::Language(prefs.language.number() as u8));
    lemma_last_for(run, Regionalized::Region(prefs.region.number() as u8));
    lemma_last_for(run, Regionalized::Base);
}

/// The paths that files replace are listed in their order, each with the size of the file that is taken for
/// it.
pub proof fn law_file_sizes(v: ListView, n: int, prefs: LocalePreferences, i: int)
    requires
        0 <= i < n <= v.lookup.len(),
    ensures
        ({
            let r = file_sizes(v, n, prefs);
            let file = pick(v.run(v.lookup[i].spec_index() as int), prefs);
            &&& file matches Some(f) ==> r.contains((v.lookup[i].spec_path(), v.size_of(f)))
            &&& r.len() <= n
            &&& forall|k: int|
                0 <= k < r.len() ==> exists|j: int|
                    0 <= j < n && (#[trigger] v.lookup[j]).spec_path() == (#[trigger] r[k]).0 && pick(
                        v.run(v.lookup[j].spec_index() as int),
                        prefs,
                    ) is Some
        }),
    decreases n,
{
    let r = file_sizes(v, n, prefs);
    let front = file_sizes(v, n - 1, prefs);
    if n > 1 {
        let m = if i < n - 1 {
            i
        } else {
            0
        };
        law_file_sizes(v, n - 1, prefs, m);
        if i < n - 1 {
            if let Some(f) = pick(v.run(v.lookup[i].spec_index() as int), prefs) {
                let k = front.index_of((v.lookup[i].spec_path(), v.size_of(f)));
                assert(r[k] == front[k]);
            }
        }
    } else {
        assert(front =~= Seq::empty());
    }
    if let Some(f) = pick(v.run(v.lookup[n - 1].spec_index() as int), prefs) {
        assert(r[front.len() as int] == (v.lookup[n - 1].spec_path(), v.size_of(f)));
    }
    assert forall|k: int| 0 <= k < r.len() implies exists|j: int|
        0 <= j < n && (#[trigger] v.lookup[j]).spec_path() == (#[trigger] r[k]).0 && pick(
            v.run(v.lookup[j].spec_index() as int),
            prefs,
        ) is Some by {
        if k < front.len() {
            assert(r[k] == front[k]);
            let j = choose|j: int|
                0 <= j < n - 1 && (#[trigger] v.lookup[j]).spec_path() == front[k].0 && pick(
                    v.run(v.lookup[j].spec_index() as int),
                    prefs,
                ) is Some;
            assert(v.lookup[j].spec_path() == r[k].0);
        } else {
            assert(v.lookup[n - 1].spec_path() == r[k].0);
        }
    }
}

} // verus!
