//! The slab of strings as bytes.
//!
//! The parts of the slab have fixed places in a blob of fixed size. How much of them is in use is kept
//! apart, in the metadata.

use crate::hash_interner::{
    u24, HashLookupKey, HashMemorySlab, MemoryUsageFraction, MemoryUsageReport, SlabView, SmolRange,
    HASH_BUCKET_COUNT, HASH_BUCKET_SIZE, HASH_MEMORY_SLAB_SIZE, INTERNED_PATH_SLAB_SIZE,
    IS_INTERNED_COMPONENT, STRING_MEMORY_SLAB_SIZE,
};
use crate::words::{le_byte, le_bytes, lemma_le_bytes, lemma_le_word, read_word_at, word_at, write_words};
use vstd::prelude::*;
use vstd::slice::slice_to_vec;

verus! {

/// Where the parts of the slab lie in its blob.
#[derive(Copy, Clone, Debug, PartialEq, Eq, Structural)]
pub struct SlabLayout {
    pub string_offset: usize,
    pub component_offset: usize,
    pub lookup_offset: usize,
    pub bucket_length_offset: usize,
    pub size: usize,
}

pub const STRING_OFFSET: usize = 3_145_728;

pub const COMPONENT_OFFSET: usize = 3_545_728;

pub const LOOKUP_OFFSET: usize = 7_740_032;

pub const BUCKET_LENGTH_OFFSET: usize = 14_031_488;

pub const BLOB_SIZE: usize = 14_032_512;

/// The least multiple of four that is not below a value.
fn align_to_word(value: usize) -> (r: usize)
    requires
        value <= 0x1000_0000,
    ensures
        value <= r < value + 4,
        r % 4 == 0,
{
    (value + 3) / 4 * 4
}

/// Lays out the parts one behind the other, each aligned to a word.
pub fn slab_layout() -> (r: SlabLayout)
    ensures
        r == (SlabLayout {
            string_offset: STRING_OFFSET,
            component_offset: COMPONENT_OFFSET,
            lookup_offset: LOOKUP_OFFSET,
            bucket_length_offset: BUCKET_LENGTH_OFFSET,
            size: BLOB_SIZE,
        }),
{
    let string_offset: usize = align_to_word(HASH_MEMORY_SLAB_SIZE);
    let component_offset: usize = string_offset + align_to_word(STRING_MEMORY_SLAB_SIZE * 4);
    let lookup_offset: usize = component_offset + align_to_word(INTERNED_PATH_SLAB_SIZE * 3);
    let bucket_length_offset: usize = lookup_offset + align_to_word(
        HASH_BUCKET_COUNT * HASH_BUCKET_SIZE * 8,
    );
    let size: usize = bucket_length_offset + align_to_word(HASH_BUCKET_COUNT * 4);
    SlabLayout { string_offset, component_offset, lookup_offset, bucket_length_offset, size }
}

/// Byte `k` of a 24-bit integer.
pub open spec fn u24_byte(x: u24, k: int) -> u8 {
    if k == 0 {
        x.lo
    } else if k == 1 {
        x.mid
    } else {
        x.hi
    }
}

/// Byte `k` of an entry: the hash, and then the range.
pub open spec fn entry_byte(e: HashLookupKey, k: int) -> u8 {
    if k < 4 {
        le_bytes(e.shifted_hash)[k]
    } else {
        le_bytes(e.range.0)[k - 4]
    }
}

/// Byte `i` of the memory of a slab before its parts were filled.
pub open spec fn memory_byte(v: SlabView, i: int) -> u8 {
    if i < v.memory.len() {
        v.memory[i]
    } else {
        0
    }
}

/// Byte `i` of the blob of a slab. Space that is not in use is as it was.
pub open spec fn blob_byte(v: SlabView, i: int) -> u8 {
    if i < STRING_OFFSET {
        if i < v.bytes.len() {
            v.bytes[i]
        } else {
            memory_byte(v, i)
        }
    } else if i < COMPONENT_OFFSET {
        let j = i - STRING_OFFSET;
        if j / 4 < v.strings.len() {
            le_bytes(v.strings[j / 4].0)[j % 4]
        } else {
            memory_byte(v, i)
        }
    } else if i < LOOKUP_OFFSET {
        let j = i - COMPONENT_OFFSET;
        if j / 3 < v.components.len() {
            u24_byte(v.components[j / 3], j % 3)
        } else {
            memory_byte(v, i)
        }
    } else if i < BUCKET_LENGTH_OFFSET {
        let j = i - LOOKUP_OFFSET;
        let b = j / 0x6000;
        let s = j % 0x6000 / 8;
        if s < v.buckets[b].len() {
            entry_byte(v.buckets[b][s], j % 8)
        } else {
            memory_byte(v, i)
        }
    } else {
        let j = i - BUCKET_LENGTH_OFFSET;
        le_bytes(v.buckets[j / 4].len() as u32)[j % 4]
    }
}

/// The blob of a slab.
pub open spec fn slab_blob(v: SlabView) -> Seq<u8> {
    if v.overfull is Some {
        v.memory
    } else {
        Seq::new(BLOB_SIZE as nat, |i: int| blob_byte(v, i))
    }
}

/// The numbers of bytes, strings and components in use, as 64-bit integers.
pub open spec fn slab_meta(v: SlabView) -> Seq<u8> {
    match v.overfull {
        Some(meta) => meta,
        None => le_bytes(v.bytes.len() as u32) + le_bytes(0) + le_bytes(v.strings.len() as u32) + le_bytes(
            0,
        ) + le_bytes(v.components.len() as u32) + le_bytes(0),
    }
}

/// The number at place `k` of the metadata.
pub open spec fn meta_len(meta: Seq<u8>, k: int) -> int {
    word_at(meta, 8 * k) + word_at(meta, 8 * k + 4) * 0x1_0000_0000
}

/// Length of bucket `b` in a blob.
pub open spec fn bucket_len(blob: Seq<u8>, b: int) -> u32 {
    word_at(blob, BUCKET_LENGTH_OFFSET + 4 * b)
}

/// Entry `i` of bucket `b` in a blob.
pub open spec fn blob_entry(blob: Seq<u8>, b: int, i: int) -> HashLookupKey {
    let at = LOOKUP_OFFSET + 0x6000 * b + 8 * i;
    HashLookupKey { shifted_hash: word_at(blob, at), range: SmolRange(word_at(blob, at + 4)) }
}

/// The parts that a blob and its metadata hold.
pub open spec fn parts_from(blob: Seq<u8>, meta: Seq<u8>) -> SlabView {
    SlabView {
        bytes: blob.take(meta_len(meta, 0)),
        strings: Seq::new(
            meta_len(meta, 1) as nat,
            |i: int| SmolRange(word_at(blob, STRING_OFFSET + 4 * i)),
        ),
        components: Seq::new(
            meta_len(meta, 2) as nat,
            |i: int|
                u24 {
                    lo: blob[COMPONENT_OFFSET + 3 * i],
                    mid: blob[COMPONENT_OFFSET + 3 * i + 1],
                    hi: blob[COMPONENT_OFFSET + 3 * i + 2],
                },
        ),
        buckets: Seq::new(
            HASH_BUCKET_COUNT as nat,
            |b: int| Seq::new(bucket_len(blob, b) as nat, |i: int| blob_entry(blob, b, i)),
        ),
        finalized: true,
        memory: blob,
        overfull: None,
    }
}

/// The slab that a blob and its metadata hold.
pub open spec fn slab_from(blob: Seq<u8>, meta: Seq<u8>) -> SlabView {
    if parts_fit(blob, meta) {
        parts_from(blob, meta)
    } else {
        SlabView { finalized: true, memory: blob, overfull: Some(meta), ..SlabView::empty() }
    }
}

/// Have the blob and the metadata the sizes that those of a slab have?
pub open spec fn sizes_ok(blob: Seq<u8>, meta: Seq<u8>) -> bool {
    blob.len() == BLOB_SIZE && meta.len() == 24
}

/// Is there space for everything that the blob and the metadata tell of?
pub open spec fn parts_fit(blob: Seq<u8>, meta: Seq<u8>) -> bool {
    &&& meta_len(meta, 0) <= HASH_MEMORY_SLAB_SIZE
    &&& meta_len(meta, 1) <= STRING_MEMORY_SLAB_SIZE
    &&& meta_len(meta, 2) <= INTERNED_PATH_SLAB_SIZE
    &&& forall|b: int| 0 <= b < HASH_BUCKET_COUNT ==> #[trigger] bucket_len(blob, b) <= HASH_BUCKET_SIZE
}

/// A slab that was written to a blob can be read from it again.
pub proof fn law_slab_blob_round_trip(v: SlabView)
    requires
        v.within_capacity(),
        v.finalized,
    ensures
        sizes_ok(slab_blob(v), slab_meta(v)),
        parts_fit(slab_blob(v), slab_meta(v)),
        slab_from(slab_blob(v), slab_meta(v)) == (SlabView { memory: slab_blob(v), ..v }),
{
    let blob = slab_blob(v);
    let meta = slab_meta(v);
    lemma_meta(v);
    assert forall|b: int| 0 <= b < HASH_BUCKET_COUNT implies #[trigger] bucket_len(blob, b)
        == v.buckets[b].len() && v.buckets[b].len() <= HASH_BUCKET_SIZE by {
        assert(v.buckets[b].len() <= HASH_BUCKET_SIZE);
        let w = v.buckets[b].len() as u32;
        lemma_le_bytes(w);
        let at = BUCKET_LENGTH_OFFSET + 4 * b;
        assert(blob[at] == le_bytes(w)[0] && blob[at + 1] == le_bytes(w)[1] && blob[at + 2]
            == le_bytes(w)[2] && blob[at + 3] == le_bytes(w)[3]);
    }
    let r = slab_from(blob, meta);
    assert(r.bytes =~= v.bytes);
    assert forall|i: int| 0 <= i < v.strings.len() implies r.strings[i] == v.strings[i] by {
        let w = v.strings[i].0;
        lemma_le_bytes(w);
        let at = STRING_OFFSET + 4 * i;
        assert(blob[at] == le_bytes(w)[0] && blob[at + 1] == le_bytes(w)[1] && blob[at + 2]
            == le_bytes(w)[2] && blob[at + 3] == le_bytes(w)[3]);
    }
    assert(r.strings =~= v.strings);
    assert forall|i: int| 0 <= i < v.components.len() implies r.components[i] == v.components[i] by {
        let at = COMPONENT_OFFSET + 3 * i;
        assert(blob[at] == v.components[i].lo && blob[at + 1] == v.components[i].mid && blob[at + 2]
            == v.components[i].hi);
    }
    assert(r.components =~= v.components);
    assert forall|b: int| 0 <= b < HASH_BUCKET_COUNT implies r.buckets[b] =~= v.buckets[b] by {
        assert(bucket_len(blob, b) == v.buckets[b].len());
        assert forall|i: int| 0 <= i < v.buckets[b].len() implies blob_entry(blob, b, i)
            == v.buckets[b][i] by {
            lemma_blob_entry(v, b, i);
        }
    }
    assert(r.buckets =~= v.buckets);
}

/// A slab that was read from a blob and its metadata is written as they were.
pub proof fn law_blob_slab_round_trip(blob: Seq<u8>, meta: Seq<u8>)
    requires
        sizes_ok(blob, meta),
    ensures
        slab_blob(slab_from(blob, meta)) == blob,
        slab_meta(slab_from(blob, meta)) == meta,
{
    let v = slab_from(blob, meta);
    if parts_fit(blob, meta) {
        let r = slab_blob(v);
        assert forall|i: int| 0 <= i < BLOB_SIZE implies #[trigger] r[i] == blob[i] by {
            lemma_blob_byte(blob, meta, i);
        }
        assert(r =~= blob);
        let m = slab_meta(v);
        let lens = seq![
            v.bytes.len() as u32,
            0,
            v.strings.len() as u32,
            0,
            v.components.len() as u32,
            0,
        ];
        lemma_le_bytes(lens[0]);
        lemma_le_bytes(lens[2]);
        lemma_le_bytes(lens[4]);
        lemma_le_bytes(0);
        assert forall|k: int| 0 <= k < 6 implies lens[k] == #[trigger] word_at(meta, 4 * k) by {
            assert(meta_len(meta, 0) == word_at(meta, 0) + word_at(meta, 4) * 0x1_0000_0000);
            assert(meta_len(meta, 1) == word_at(meta, 8) + word_at(meta, 12) * 0x1_0000_0000);
            assert(meta_len(meta, 2) == word_at(meta, 16) + word_at(meta, 20) * 0x1_0000_0000);
            assert(k == 0 || k == 1 || k == 2 || k == 3 || k == 4 || k == 5);
        }
        assert forall|i: int| 0 <= i < 24 implies m[i] == meta[i] by {
            let k = i / 4;
            assert(lens[k] == word_at(meta, 4 * k));
            lemma_word_bytes(meta, 4 * k);
            assert(k == 0 || k == 1 || k == 2 || k == 3 || k == 4 || k == 5);
            assert(m[i] == le_bytes(lens[k])[i % 4]);
        }
        assert(m =~= meta);
    }
}

/// The bytes of a word are those that it was read from.
proof fn lemma_word_bytes(b: Seq<u8>, at: int)
    ensures
        le_bytes(word_at(b, at)) == seq![b[at], b[at + 1], b[at + 2], b[at + 3]],
{
    lemma_le_word(b[at], b[at + 1], b[at + 2], b[at + 3]);
}

/// Every byte of the blob is written where it was read.
proof fn lemma_blob_byte(blob: Seq<u8>, meta: Seq<u8>, i: int)
    requires
        sizes_ok(blob, meta),
        parts_fit(blob, meta),
        0 <= i < BLOB_SIZE,
    ensures
        blob_byte(parts_from(blob, meta), i) == blob[i],
{
    let v = parts_from(blob, meta);
    if i < STRING_OFFSET {
    } else if i < COMPONENT_OFFSET {
        let j = i - STRING_OFFSET;
        lemma_word_bytes(blob, STRING_OFFSET + 4 * (j / 4));
    } else if i < LOOKUP_OFFSET {
        let j = i - COMPONENT_OFFSET;
        assert(j == 3 * (j / 3) + j % 3);
    } else if i < BUCKET_LENGTH_OFFSET {
        let j = i - LOOKUP_OFFSET;
        let b = j / 0x6000;
        let n = j % 0x6000 / 8;
        let at = LOOKUP_OFFSET + 0x6000 * b + 8 * n;
        assert(0 <= b < HASH_BUCKET_COUNT);
        assert(j == 0x6000 * b + 8 * n + j % 8);
        lemma_word_bytes(blob, at);
        lemma_word_bytes(blob, at + 4);
        if n < v.buckets[b].len() {
            assert(v.buckets[b][n] == blob_entry(blob, b, n));
        }
    } else {
        let j = i - BUCKET_LENGTH_OFFSET;
        let b = j / 4;
        assert(0 <= b < HASH_BUCKET_COUNT);
        lemma_word_bytes(blob, BUCKET_LENGTH_OFFSET + 4 * b);
    }
}

proof fn lemma_blob_entry(v: SlabView, b: int, i: int)
    requires
        v.within_capacity(),
        0 <= b < HASH_BUCKET_COUNT,
        0 <= i < v.buckets[b].len(),
    ensures
        blob_entry(slab_blob(v), b, i) == v.buckets[b][i],
{
    let blob = slab_blob(v);
    let e = v.buckets[b][i];
    assert(v.buckets[b].len() <= HASH_BUCKET_SIZE);
    lemma_le_bytes(e.shifted_hash);
    lemma_le_bytes(e.range.0);
    let at = LOOKUP_OFFSET + 0x6000 * b + 8 * i;
    assert forall|k: int| 0 <= k < 8 implies #[trigger] blob[at + k] == entry_byte(e, k) by {
        let j = 0x6000 * b + 8 * i + k;
        assert(j / 0x6000 == b);
        assert(j % 0x6000 == 8 * i + k);
        assert((8 * i + k) / 8 == i);
        assert(j % 8 == k);
    }
    assert(blob[at + 0] == entry_byte(e, 0) && blob[at + 1] == entry_byte(e, 1) && blob[at + 2]
        == entry_byte(e, 2) && blob[at + 3] == entry_byte(e, 3) && blob[at + 4] == entry_byte(e, 4)
        && blob[at + 5] == entry_byte(e, 5) && blob[at + 6] == entry_byte(e, 6) && blob[at + 7]
        == entry_byte(e, 7));
}

proof fn lemma_meta(v: SlabView)
    requires
        v.within_capacity(),
    ensures
        slab_meta(v).len() == 24,
        meta_len(slab_meta(v), 0) == v.bytes.len(),
        meta_len(slab_meta(v), 1) == v.strings.len(),
        meta_len(slab_meta(v), 2) == v.components.len(),
{
    lemma_le_bytes(v.bytes.len() as u32);
    lemma_le_bytes(v.strings.len() as u32);
    lemma_le_bytes(v.components.len() as u32);
    lemma_le_bytes(0);
}


impl SlabView {
    /// Number of entries in the first `n` buckets.
    pub open spec fn entry_count(self, n: int) -> nat
        decreases n,
    {
        if n <= 0 {
            0
        } else if self.overfull is Some {
            self.entry_count(n - 1) + bucket_len(self.memory, n - 1) as nat
        } else {
            self.entry_count(n - 1) + self.buckets[n - 1].len()
        }
    }

    /// Can the slab be written to a blob?
    pub open spec fn storable(self) -> bool {
        match self.overfull {
            Some(meta) => sizes_ok(self.memory, meta) && self.buckets.len() == HASH_BUCKET_COUNT,
            None => self.within_capacity(),
        }
    }

    /// The numbers of bytes, strings and components that the slab tells of.
    pub open spec fn part_len(self, k: int) -> int {
        match self.overfull {
            Some(meta) => meta_len(meta, k),
            None => if k == 0 {
                self.bytes.len() as int
            } else if k == 1 {
                self.strings.len() as int
            } else {
                self.components.len() as int
            },
        }
    }

    /// Can the bytes that the slab tells of be counted?
    pub open spec fn countable(self) -> bool {
        &&& self.part_len(0) <= usize::MAX
        &&& self.part_len(1) * 4 <= usize::MAX
        &&& self.part_len(2) * 3 <= usize::MAX
        &&& self.entry_count(HASH_BUCKET_COUNT as int) * 8 <= usize::MAX
    }
}

proof fn lemma_entry_count(v: SlabView, n: int, m: int)
    requires
        0 <= n <= m,
    ensures
        v.entry_count(n) <= v.entry_count(m),
    decreases m,
{
    if n < m {
        lemma_entry_count(v, n, m - 1);
    }
}

/// The number at place `k` of the metadata, which has to fit.
fn read_len(meta: &Vec<u8>, k: usize) -> (r: usize)
    requires
        meta@.len() == 24,
        k < 3,
        meta_len(meta@, k as int) <= usize::MAX,
    ensures
        r == meta_len(meta@, k as int),
{
    let low: u64 = read_word_at(meta.as_slice(), 8 * k) as u64;
    let high: u64 = read_word_at(meta.as_slice(), 8 * k + 4) as u64;
    (low + high * 0x1_0000_0000) as usize
}

impl HashMemorySlab {
    /// How much of each part is in use. A slab that tells of more than there is space for is taken at its
    /// word.
    pub fn report(&self) -> (r: MemoryUsageReport)
        requires
            self@.storable(),
            self@.overfull is Some ==> self@.countable(),
        ensures
            r.total_blob_size == BLOB_SIZE,
            r.bytes.numer == self@.part_len(0),
            r.bytes.denom == HASH_MEMORY_SLAB_SIZE,
            r.strings.numer == self@.part_len(1) * 4,
            r.strings.denom == STRING_MEMORY_SLAB_SIZE * 4,
            r.components.numer == self@.part_len(2) * 3,
            r.components.denom == INTERNED_PATH_SLAB_SIZE * 3,
            r.hashes.numer == self@.entry_count(HASH_BUCKET_COUNT as int) * 8,
            r.hashes.denom == HASH_BUCKET_COUNT * HASH_BUCKET_SIZE * 8,
    {
        let entries: usize = self.count_entries();
        let (bytes, strings, components): (usize, usize, usize) = match self.overfull() {
            Some(meta) => (read_len(meta, 0), read_len(meta, 1), read_len(meta, 2)),
            None => (self.bytes().len(), self.strings().len(), self.components().len()),
        };
        MemoryUsageReport {
            total_blob_size: slab_layout().size,
            bytes: MemoryUsageFraction { numer: bytes, denom: HASH_MEMORY_SLAB_SIZE },
            strings: MemoryUsageFraction { numer: strings * 4, denom: STRING_MEMORY_SLAB_SIZE * 4 },
            components: MemoryUsageFraction {
                numer: components * 3,
                denom: INTERNED_PATH_SLAB_SIZE * 3,
            },
            hashes: MemoryUsageFraction {
                numer: entries * 8,
                denom: HASH_BUCKET_COUNT * HASH_BUCKET_SIZE * 8,
            },
        }
    }

    fn count_entries(&self) -> (r: usize)
        requires
            self@.storable(),
            self@.overfull is Some ==> self@.countable(),
        ensures
            r == self@.entry_count(HASH_BUCKET_COUNT as int),
            self@.overfull is None ==> r <= HASH_BUCKET_COUNT * HASH_BUCKET_SIZE,
    {
        let mut entries: usize = 0;
        let mut b: usize = 0;
        let overfull: bool = self.overfull().is_some();
        while b < HASH_BUCKET_COUNT
            invariant
                self@.storable(),
                overfull == (self@.overfull is Some),
                overfull ==> self@.countable(),
                b <= HASH_BUCKET_COUNT,
                entries == self@.entry_count(b as int),
                !overfull ==> entries <= b * HASH_BUCKET_SIZE,
            decreases HASH_BUCKET_COUNT - b,
        {
            proof {
                lemma_entry_count(self@, b + 1, HASH_BUCKET_COUNT as int);
                if !overfull {
                    assert(self@.buckets[b as int].len() <= HASH_BUCKET_SIZE);
                }
            }
            let n: usize = if overfull {
                read_word_at(self.memory().as_slice(), BUCKET_LENGTH_OFFSET + 4 * b) as usize
            } else {
                self.bucket(b).len()
            };
            entries += n;
            b += 1;
        }
        entries
    }

    fn memory_byte(&self, i: usize) -> (r: u8)
        ensures
            r == memory_byte(self@, i as int),
    {
        if i < self.memory().len() {
            self.memory()[i]
        } else {
            0
        }
    }

    fn blob_byte(&self, i: usize) -> (r: u8)
        requires
            self@.within_capacity(),
            i < BLOB_SIZE,
        ensures
            r == blob_byte(self@, i as int),
    {
        if i < STRING_OFFSET {
            if i < self.bytes().len() {
                self.bytes()[i]
            } else {
                self.memory_byte(i)
            }
        } else if i < COMPONENT_OFFSET {
            let j: usize = i - STRING_OFFSET;
            if j / 4 < self.strings().len() {
                le_byte(self.strings()[j / 4].0, j % 4)
            } else {
                self.memory_byte(i)
            }
        } else if i < LOOKUP_OFFSET {
            let j: usize = i - COMPONENT_OFFSET;
            if j / 3 < self.components().len() {
                let x = self.components()[j / 3];
                let k: usize = j % 3;
                if k == 0 {
                    x.lo
                } else if k == 1 {
                    x.mid
                } else {
                    x.hi
                }
            } else {
                self.memory_byte(i)
            }
        } else if i < BUCKET_LENGTH_OFFSET {
            let j: usize = i - LOOKUP_OFFSET;
            let b: usize = j / 0x6000;
            let s: usize = j % 0x6000 / 8;
            if s < self.bucket(b).len() {
                let e = self.bucket(b)[s];
                let k: usize = j % 8;
                if k < 4 {
                    le_byte(e.shifted_hash, k)
                } else {
                    le_byte(e.range.0, k - 4)
                }
            } else {
                self.memory_byte(i)
            }
        } else {
            let j: usize = i - BUCKET_LENGTH_OFFSET;
            proof {
                assert(self@.buckets[(j / 4) as int].len() <= HASH_BUCKET_SIZE);
            }
            le_byte(self.bucket(j / 4).len() as u32, j % 4)
        }
    }

    /// The slab as a blob.
    pub fn dump_blob(&self) -> (r: Vec<u8>)
        requires
            self@.storable(),
        ensures
            r@ == slab_blob(self@),
    {
        if self.overfull().is_some() {
            return slice_to_vec(self.memory().as_slice());
        }
        let mut r: Vec<u8> = Vec::new();
        let mut i: usize = 0;
        while i < BLOB_SIZE
            invariant
                self@.within_capacity(),
                i <= BLOB_SIZE,
                r@ =~= slab_blob(self@).take(i as int),
            decreases BLOB_SIZE - i,
        {
            r.push(self.blob_byte(i));
            i += 1;
        }
        proof {
            assert(r@ =~= slab_blob(self@));
        }
        r
    }

    /// How much of the blob is in use.
    pub fn dump_meta(&self) -> (r: Vec<u8>)
        requires
            self@.storable(),
        ensures
            r@ == slab_meta(self@),
    {
        if let Some(meta) = self.overfull() {
            return slice_to_vec(meta.as_slice());
        }
        let mut words: Vec<u32> = Vec::new();
        words.push(self.bytes().len() as u32);
        words.push(0);
        words.push(self.strings().len() as u32);
        words.push(0);
        words.push(self.components().len() as u32);
        words.push(0);
        let r = write_words(&words);
        proof {
            lemma_le_bytes(self@.bytes.len() as u32);
            lemma_le_bytes(self@.strings.len() as u32);
            lemma_le_bytes(self@.components.len() as u32);
            lemma_le_bytes(0);
            assert(r@.len() == 24);
            assert forall|i: int| 0 <= i < 24 implies r@[i] == slab_meta(self@)[i] by {
                assert(r@[i] == le_bytes(words@[i / 4])[i % 4]);
                assert(i / 4 == 0 || i / 4 == 1 || i / 4 == 2 || i / 4 == 3 || i / 4 == 4 || i / 4 == 5);
            }
            assert(r@ =~= slab_meta(self@));
        }
        r
    }

    /// Is there space for everything, is everything there that is referred to, and are the buckets sorted?
    pub fn is_valid(&self) -> (r: bool)
        requires
            self@.storable(),
        ensures
            r == (self.wf() && self@.sorted()),
    {
        if self.overfull().is_some() {
            return false;
        }
        let mut i: usize = 0;
        while i < self.strings().len()
            invariant
                self@.within_capacity(),
                i <= self@.strings.len(),
                forall|j: int|
                    0 <= j < i ==> (#[trigger] self@.strings[j]).end() <= self@.bytes.len(),
            decreases self@.strings.len() - i,
        {
            if self.strings()[i].range().1 as usize > self.bytes().len() {
                return false;
            }
            i += 1;
        }
        let mut b: usize = 0;
        while b < HASH_BUCKET_COUNT
            invariant
                self@.within_capacity(),
                b <= HASH_BUCKET_COUNT,
                forall|c: int, j: int|
                    0 <= c < b && 0 <= j < self@.buckets[c].len()
                        ==> (#[trigger] self@.buckets[c][j]).range.end() <= self@.components.len(),
                forall|c: int|
                    0 <= c < b ==> self@.sorted_bucket(
                        c,
                        (#[trigger] self@.buckets[c]).len() as int,
                    ),
            decreases HASH_BUCKET_COUNT - b,
        {
            if !self.is_bucket_valid(b) {
                return false;
            }
            b += 1;
        }
        let mut c: usize = 0;
        while c < self.components().len()
            invariant
                self@.within_capacity(),
                c <= self@.components.len(),
                forall|d: int| 0 <= d < c ==> #[trigger] self@.component_ok(d),
            decreases self@.components.len() - c,
        {
            let x: u32 = self.components()[c].to_u32();
            let ok: bool = if x < IS_INTERNED_COMPONENT {
                (x as usize) < self.strings().len()
            } else {
                let idx: usize = (x - IS_INTERNED_COMPONENT) as usize;
                if idx >= HASH_BUCKET_COUNT * HASH_BUCKET_SIZE {
                    false
                } else {
                    let b: usize = idx / HASH_BUCKET_SIZE;
                    let s: usize = idx % HASH_BUCKET_SIZE;
                    s < self.bucket(b).len() && self.bucket(b)[s].range.range().1 as usize <= c
                }
            };
            if !ok {
                proof {
                    assert(!self@.component_ok(c as int));
                }
                return false;
            }
            c += 1;
        }
        true
    }

    fn is_bucket_valid(&self, b: usize) -> (r: bool)
        requires
            self@.within_capacity(),
            b < HASH_BUCKET_COUNT,
        ensures
            r == (self@.sorted_bucket(b as int, self@.buckets[b as int].len() as int)
                && forall|j: int|
                0 <= j < self@.buckets[b as int].len() ==> (
                #[trigger] self@.buckets[b as int][j]).range.end() <= self@.components.len()),
    {
        let bucket = self.bucket(b);
        let ghost s = self@.buckets[b as int];
        let mut i: usize = 0;
        while i < bucket.len()
            invariant
                s == bucket@,
                s == self@.buckets[b as int],
                i <= s.len(),
                forall|j: int| 0 <= j < i ==> (#[trigger] s[j]).range.end() <= self@.components.len(),
                forall|j: int, k: int|
                    0 <= j < k < i ==> (#[trigger] s[j]).shifted_hash < (#[trigger] s[k]).shifted_hash,
            decreases s.len() - i,
        {
            if bucket[i].range.range().1 as usize > self.components().len() {
                return false;
            }
            if i > 0 && bucket[i - 1].shifted_hash >= bucket[i].shifted_hash {
                proof {
                    assert(!(self@.buckets[b as int][i - 1].shifted_hash
                        < self@.buckets[b as int][i as int].shifted_hash));
                }
                return false;
            }
            proof {
                assert forall|j: int, k: int| 0 <= j < k < i + 1 implies (
                #[trigger] s[j]).shifted_hash < (#[trigger] s[k]).shifted_hash by {
                    if k == i && j < i - 1 {
                        assert(s[j].shifted_hash < s[i - 1].shifted_hash);
                    }
                }
            }
            i += 1;
        }
        true
    }

    /// Reads a slab from its blob and metadata, unless they have other sizes than those of a slab. Whether
    /// what was read is valid is told by `is_valid`.
    pub fn from_blob(blob: &[u8], meta: &[u8]) -> (r: Option<HashMemorySlab>)
        ensures
            match r {
                Some(slab) => sizes_ok(blob@, meta@) && slab@ == slab_from(blob@, meta@)
                    && slab@.storable(),
                None => !sizes_ok(blob@, meta@),
            },
    {
        if blob.len() != BLOB_SIZE || meta.len() != 24 {
            return None;
        }
        match read_parts(blob, meta) {
            Some(slab) => Some(slab),
            None => Some(HashMemorySlab::from_overfull(slice_to_vec(blob), slice_to_vec(meta))),
        }
    }
}

/// Reads the parts of a slab, if there is space for them.
fn read_parts(blob: &[u8], meta: &[u8]) -> (r: Option<HashMemorySlab>)
    requires
        sizes_ok(blob@, meta@),
    ensures
        match r {
            Some(slab) => parts_fit(blob@, meta@) && slab@ == parts_from(blob@, meta@)
                && slab@.within_capacity(),
            None => !parts_fit(blob@, meta@),
        },
{
    if read_word_at(meta, 4) != 0 || read_word_at(meta, 12) != 0 || read_word_at(meta, 20) != 0 {
        return None;
    }
    let byte_len: usize = read_word_at(meta, 0) as usize;
    let string_len: usize = read_word_at(meta, 8) as usize;
    let component_len: usize = read_word_at(meta, 16) as usize;
    if byte_len > HASH_MEMORY_SLAB_SIZE || string_len > STRING_MEMORY_SLAB_SIZE || component_len
        > INTERNED_PATH_SLAB_SIZE {
        return None;
    }
    let ghost v = parts_from(blob@, meta@);
    let mut buckets: Vec<Vec<HashLookupKey>> = Vec::new();
    let mut b: usize = 0;
    while b < HASH_BUCKET_COUNT
        invariant
            blob@.len() == BLOB_SIZE,
            v == parts_from(blob@, meta@),
            b <= HASH_BUCKET_COUNT,
            buckets@.len() == b,
            forall|c: int| 0 <= c < b ==> (#[trigger] buckets@[c])@ == v.buckets[c],
            forall|c: int| 0 <= c < b ==> #[trigger] bucket_len(blob@, c) <= HASH_BUCKET_SIZE,
        decreases HASH_BUCKET_COUNT - b,
    {
        let n: usize = read_word_at(blob, BUCKET_LENGTH_OFFSET + 4 * b) as usize;
        if n > HASH_BUCKET_SIZE {
            proof {
                assert(bucket_len(blob@, b as int) > HASH_BUCKET_SIZE);
            }
            return None;
        }
        let bucket = read_bucket(blob, b, n);
        buckets.push(bucket);
        b += 1;
    }
    let mut bytes: Vec<u8> = Vec::new();
    let mut i: usize = 0;
    while i < byte_len
        invariant
            blob@.len() == BLOB_SIZE,
            byte_len <= HASH_MEMORY_SLAB_SIZE,
            i <= byte_len,
            bytes@ =~= blob@.take(i as int),
        decreases byte_len - i,
    {
        bytes.push(blob[i]);
        i += 1;
    }
    let mut strings: Vec<SmolRange> = Vec::new();
    let mut i: usize = 0;
    while i < string_len
        invariant
            blob@.len() == BLOB_SIZE,
            string_len <= STRING_MEMORY_SLAB_SIZE,
            i <= string_len,
            strings@ =~= Seq::new(
                i as nat,
                |j: int| SmolRange(word_at(blob@, STRING_OFFSET + 4 * j)),
            ),
        decreases string_len - i,
    {
        strings.push(SmolRange(read_word_at(blob, STRING_OFFSET + 4 * i)));
        i += 1;
    }
    let mut components: Vec<u24> = Vec::new();
    let mut i: usize = 0;
    while i < component_len
        invariant
            blob@.len() == BLOB_SIZE,
            component_len <= INTERNED_PATH_SLAB_SIZE,
            i <= component_len,
            components@ =~= Seq::new(
                i as nat,
                |j: int|
                    u24 {
                        lo: blob@[COMPONENT_OFFSET + 3 * j],
                        mid: blob@[COMPONENT_OFFSET + 3 * j + 1],
                        hi: blob@[COMPONENT_OFFSET + 3 * j + 2],
                    },
            ),
        decreases component_len - i,
    {
        let at: usize = COMPONENT_OFFSET + 3 * i;
        components.push(u24 { lo: blob[at], mid: blob[at + 1], hi: blob[at + 2] });
        i += 1;
    }
    let r = HashMemorySlab::from_parts(bytes, strings, components, buckets, slice_to_vec(blob));
    proof {
        assert(r@.bytes =~= v.bytes);
        assert(r@.strings =~= v.strings);
        assert(r@.components =~= v.components);
        assert(r@.buckets =~= v.buckets);
        assert forall|c: int| 0 <= c < HASH_BUCKET_COUNT implies (#[trigger] r@.buckets[c]).len()
            <= HASH_BUCKET_SIZE by {
            assert(bucket_len(blob@, c) <= HASH_BUCKET_SIZE);
        }
    }
    Some(r)
}

/// Reads the first `n` entries of a bucket.
fn read_bucket(blob: &[u8], b: usize, n: usize) -> (r: Vec<HashLookupKey>)
    requires
        blob@.len() == BLOB_SIZE,
        b < HASH_BUCKET_COUNT,
        n <= HASH_BUCKET_SIZE,
    ensures
        r@ == Seq::new(n as nat, |i: int| blob_entry(blob@, b as int, i)),
{
    let mut r: Vec<HashLookupKey> = Vec::new();
    let mut i: usize = 0;
    while i < n
        invariant
            blob@.len() == BLOB_SIZE,
            b < HASH_BUCKET_COUNT,
            n <= HASH_BUCKET_SIZE,
            i <= n,
            r@ =~= Seq::new(i as nat, |j: int| blob_entry(blob@, b as int, j)),
        decreases n - i,
    {
        let at: usize = LOOKUP_OFFSET + 0x6000 * b + 8 * i;
        r.push(
            HashLookupKey {
                shifted_hash: read_word_at(blob, at),
                range: SmolRange(read_word_at(blob, at + 4)),
            },
        );
        i += 1;
    }
    r
}

} // verus!
