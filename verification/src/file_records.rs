//! How the records of the list of mod files are stored.

use crate::filesystem::{CompressedFile, File, FileHeader, FileIndex, HashedFile, Root, UncompressedFile};
use crate::words::Record;
use vstd::prelude::*;

verus! {

impl Record for HashedFile {
    open spec fn width() -> nat {
        2
    }

    open spec fn words(self) -> Seq<u32> {
        seq![
            self.lo,
            self.hi,
        ]
    }

    proof fn lemma_width(self) {
    }

    proof fn lemma_injective(self, other: Self) {
        assert(self.words()[0] == other.words()[0]);
        assert(self.words()[1] == other.words()[1]);
    }

    fn width_words() -> (r: usize) {
        2
    }

    fn read(w: &[u32], at: usize) -> (r: Self) {
        let r = HashedFile {
            lo: w[at],
            hi: w[at + 1],
        };
        proof {
            assert(r.words() =~= w@.subrange(at as int, at + 2));
        }
        r
    }

    fn write(&self, out: &mut Vec<u32>) {
        out.push(self.lo);
        out.push(self.hi);
        proof {
            assert(out@ =~= old(out)@ + self.words());
        }
    }
}

impl Record for FileHeader {
    open spec fn width() -> nat {
        2
    }

    open spec fn words(self) -> Seq<u32> {
        seq![
            self.start,
            self.num_files,
        ]
    }

    proof fn lemma_width(self) {
    }

    proof fn lemma_injective(self, other: Self) {
        assert(self.words()[0] == other.words()[0]);
        assert(self.words()[1] == other.words()[1]);
    }

    fn width_words() -> (r: usize) {
        2
    }

    fn read(w: &[u32], at: usize) -> (r: Self) {
        let r = FileHeader {
            start: w[at],
            num_files: w[at + 1],
        };
        proof {
            assert(r.words() =~= w@.subrange(at as int, at + 2));
        }
        r
    }

    fn write(&self, out: &mut Vec<u32>) {
        out.push(self.start);
        out.push(self.num_files);
        proof {
            assert(out@ =~= old(out)@ + self.words());
        }
    }
}

impl Record for File {
    open spec fn width() -> nat {
        2
    }

    open spec fn words(self) -> Seq<u32> {
        seq![
            self.root,
            self.index.bits,
        ]
    }

    proof fn lemma_width(self) {
    }

    proof fn lemma_injective(self, other: Self) {
        assert(self.words()[0] == other.words()[0]);
        assert(self.words()[1] == other.words()[1]);
    }

    fn width_words() -> (r: usize) {
        2
    }

    fn read(w: &[u32], at: usize) -> (r: Self) {
        let r = File {
            root: w[at],
            index: FileIndex { bits: w[at + 1] },
        };
        proof {
            assert(r.words() =~= w@.subrange(at as int, at + 2));
        }
        r
    }

    fn write(&self, out: &mut Vec<u32>) {
        out.push(self.root);
        out.push(self.index.bits);
        proof {
            assert(out@ =~= old(out)@ + self.words());
        }
    }
}

impl Record for UncompressedFile {
    open spec fn width() -> nat {
        1
    }

    open spec fn words(self) -> Seq<u32> {
        seq![
            self.size,
        ]
    }

    proof fn lemma_width(self) {
    }

    proof fn lemma_injective(self, other: Self) {
        assert(self.words()[0] == self.size && other.words()[0] == other.size);
    }

    fn width_words() -> (r: usize) {
        1
    }

    fn read(w: &[u32], at: usize) -> (r: Self) {
        let r = UncompressedFile {
            size: w[at],
        };
        proof {
            assert(r.words() =~= w@.subrange(at as int, at + 1));
        }
        r
    }

    fn write(&self, out: &mut Vec<u32>) {
        out.push(self.size);
        proof {
            assert(out@ =~= old(out)@ + self.words());
        }
    }
}

impl Record for CompressedFile {
    open spec fn width() -> nat {
        3
    }

    open spec fn words(self) -> Seq<u32> {
        seq![
            self.compressed_start,
            self.compressed_size,
            self.decompressed_size,
        ]
    }

    proof fn lemma_width(self) {
    }

    proof fn lemma_injective(self, other: Self) {
        assert(self.words()[0] == other.words()[0]);
        assert(self.words()[1] == other.words()[1]);
        assert(self.words()[2] == other.words()[2]);
    }

    fn width_words() -> (r: usize) {
        3
    }

    fn read(w: &[u32], at: usize) -> (r: Self) {
        let r = CompressedFile {
            compressed_start: w[at],
            compressed_size: w[at + 1],
            decompressed_size: w[at + 2],
        };
        proof {
            assert(r.words() =~= w@.subrange(at as int, at + 3));
        }
        r
    }

    fn write(&self, out: &mut Vec<u32>) {
        out.push(self.compressed_start);
        out.push(self.compressed_size);
        out.push(self.decompressed_size);
        proof {
            assert(out@ =~= old(out)@ + self.words());
        }
    }
}

impl Record for Root {
    open spec fn width() -> nat {
        2
    }

    open spec fn words(self) -> Seq<u32> {
        seq![
            self.byte_start,
            self.byte_count,
        ]
    }

    proof fn lemma_width(self) {
    }

    proof fn lemma_injective(self, other: Self) {
        assert(self.words()[0] == other.words()[0]);
        assert(self.words()[1] == other.words()[1]);
    }

    fn width_words() -> (r: usize) {
        2
    }

    fn read(w: &[u32], at: usize) -> (r: Self) {
        let r = Root {
            byte_start: w[at],
            byte_count: w[at + 1],
        };
        proof {
            assert(r.words() =~= w@.subrange(at as int, at + 2));
        }
        r
    }

    fn write(&self, out: &mut Vec<u32>) {
        out.push(self.byte_start);
        out.push(self.byte_count);
        proof {
            assert(out@ =~= old(out)@ + self.words());
        }
    }
}

} // verus!
