//! Little-endian words, and records that are stored as a fixed number of them.
//!
//! Every structure of the archive is aligned to four bytes and made of 32-bit integers, so a table
//! on disk is the concatenation of the words of its records.

use vstd::prelude::*;

verus! {

/// The little-endian bytes of a word.
#[verifier::opaque]
pub open spec fn le_bytes(w: u32) -> Seq<u8> {
    seq![
        (w % 0x100) as u8,
        (w / 0x100 % 0x100) as u8,
        (w / 0x1_0000 % 0x100) as u8,
        (w / 0x100_0000) as u8,
    ]
}

/// The word that four little-endian bytes spell.
#[verifier::opaque]
pub open spec fn le_word(b0: u8, b1: u8, b2: u8, b3: u8) -> u32 {
    (b0 + b1 * 0x100 + b2 * 0x1_0000 + b3 * 0x100_0000) as u32
}

/// The little-endian bytes of a run of words.
pub open spec fn words_to_bytes(w: Seq<u32>) -> Seq<u8> {
    Seq::new(w.len() * 4, |i: int| le_bytes(w[i / 4])[i % 4])
}

/// The whole words at the front of a byte string.
pub open spec fn bytes_to_words(b: Seq<u8>) -> Seq<u32> {
    Seq::new(b.len() / 4, |i: int| le_word(b[4 * i], b[4 * i + 1], b[4 * i + 2], b[4 * i + 3]))
}

/// The bytes behind the last whole word.
pub open spec fn tail_bytes(b: Seq<u8>) -> Seq<u8> {
    b.skip(b.len() - b.len() % 4)
}

pub proof fn lemma_le_bytes(w: u32)
    ensures
        le_bytes(w).len() == 4,
        le_word(le_bytes(w)[0], le_bytes(w)[1], le_bytes(w)[2], le_bytes(w)[3]) == w,
{
    reveal(le_bytes);
    reveal(le_word);
    let q = w / 0x100;
    assert(w == q * 0x100 + w % 0x100);
    let q2 = w / 0x1_0000;
    assert(q2 == q / 0x100);
    assert(q == q2 * 0x100 + q % 0x100);
    let q3 = w / 0x100_0000;
    assert(q3 == q2 / 0x100);
    assert(q2 == q3 * 0x100 + q2 % 0x100);
}

pub(crate) proof fn lemma_le_word(b0: u8, b1: u8, b2: u8, b3: u8)
    ensures
        le_bytes(le_word(b0, b1, b2, b3)) == seq![b0, b1, b2, b3],
{
    reveal(le_bytes);
    reveal(le_word);
    let w = b0 + b1 * 0x100 + b2 * 0x1_0000 + b3 * 0x100_0000;
    assert(w / 0x100_0000 == b3);
    assert(w / 0x1_0000 == b2 + b3 * 0x100);
    assert(w / 0x100 == b1 + b2 * 0x100 + b3 * 0x1_0000);
    assert(le_bytes(le_word(b0, b1, b2, b3)) =~= seq![b0, b1, b2, b3]);
}

/// Reading back the bytes of words gives the words.
pub proof fn law_words_bytes_round_trip(w: Seq<u32>)
    ensures
        bytes_to_words(words_to_bytes(w)) == w,
        words_to_bytes(w).len() == 4 * w.len(),
{
    let b = words_to_bytes(w);
    assert forall|i: int| 0 <= i < w.len() implies bytes_to_words(b)[i] == w[i] by {
        lemma_le_bytes(w[i]);
        assert((4 * i) / 4 == i && (4 * i + 1) / 4 == i && (4 * i + 2) / 4 == i && (4 * i + 3) / 4
            == i);
        assert((4 * i) % 4 == 0 && (4 * i + 1) % 4 == 1 && (4 * i + 2) % 4 == 2 && (4 * i + 3) % 4
            == 3);
    }
    assert(bytes_to_words(b) =~= w);
}

/// The words of a byte string and the bytes behind them make up the byte string.
pub proof fn law_bytes_words_round_trip(b: Seq<u8>)
    ensures
        words_to_bytes(bytes_to_words(b)) + tail_bytes(b) == b,
{
    let w = bytes_to_words(b);
    let r = words_to_bytes(w) + tail_bytes(b);
    assert(r.len() == b.len());
    assert forall|i: int| 0 <= i < b.len() implies r[i] == b[i] by {
        if i < 4 * w.len() {
            let q = i / 4;
            lemma_le_word(b[4 * q], b[4 * q + 1], b[4 * q + 2], b[4 * q + 3]);
            assert(i == 4 * q + i % 4);
        }
    }
    assert(r =~= b);
}

/// The bytes of two runs of words, one behind the other.
pub proof fn lemma_words_to_bytes_concat(a: Seq<u32>, b: Seq<u32>)
    ensures
        words_to_bytes(a + b) == words_to_bytes(a) + words_to_bytes(b),
{
    let l = words_to_bytes(a + b);
    let r = words_to_bytes(a) + words_to_bytes(b);
    assert forall|i: int| 0 <= i < l.len() implies l[i] == r[i] by {
        if i < 4 * a.len() {
            assert((a + b)[i / 4] == a[i / 4]);
        } else {
            let j = i - 4 * a.len();
            assert(i / 4 == a.len() + j / 4 && i % 4 == j % 4);
            assert((a + b)[i / 4] == b[j / 4]);
        }
    }
    assert(l =~= r);
}

/// Whole words in front of more bytes are read as by themselves.
pub proof fn lemma_bytes_to_words_prefix(front: Seq<u8>, back: Seq<u8>)
    requires
        front.len() % 4 == 0,
    ensures
        bytes_to_words(front + back).take((front.len() / 4) as int) == bytes_to_words(front),
        bytes_to_words(front + back).len() >= front.len() / 4,
{
    let b = front + back;
    let n = (front.len() / 4) as int;
    assert forall|i: int| 0 <= i < n implies bytes_to_words(b)[i] == bytes_to_words(front)[i] by {
        assert(b[4 * i] == front[4 * i] && b[4 * i + 1] == front[4 * i + 1] && b[4 * i + 2]
            == front[4 * i + 2] && b[4 * i + 3] == front[4 * i + 3]);
    }
    assert(bytes_to_words(b).take(n) =~= bytes_to_words(front));
}

/// Runs of words, one behind the other.
pub open spec fn cat(s: Seq<Seq<u32>>) -> Seq<u32>
    decreases s.len(),
{
    if s.len() == 0 {
        Seq::empty()
    } else {
        cat(s.drop_last()) + s.last()
    }
}

pub proof fn lemma_cat_push(s: Seq<Seq<u32>>, x: Seq<u32>)
    ensures
        cat(s.push(x)) == cat(s) + x,
        cat(s.push(x)).len() == cat(s).len() + x.len(),
{
    assert(s.push(x).drop_last() =~= s);
}

/// Each front part of what is in front of `w` is in front of `w`.
pub proof fn lemma_cat_prefix(s: Seq<Seq<u32>>, k: int, w: Seq<u32>)
    requires
        0 <= k <= s.len(),
        cat(s).len() <= w.len(),
        cat(s) == w.take(cat(s).len() as int),
    ensures
        cat(s.take(k)).len() <= cat(s).len(),
        cat(s.take(k)) == w.take(cat(s.take(k)).len() as int),
    decreases s.len(),
{
    if k == s.len() {
        assert(s.take(k) =~= s);
    } else {
        let t = s.drop_last();
        assert(cat(t) =~= cat(s).take(cat(t).len() as int));
        assert(cat(t) =~= w.take(cat(t).len() as int));
        lemma_cat_prefix(t, k, w);
        assert(t.take(k) =~= s.take(k));
    }
}

/// If runs of the same lengths are in front of `w`, they are equal.
pub proof fn lemma_cat_injective(s: Seq<Seq<u32>>, t: Seq<Seq<u32>>, w: Seq<u32>)
    requires
        s.len() == t.len(),
        forall|i: int| 0 <= i < s.len() ==> (#[trigger] s[i]).len() == t[i].len(),
        cat(s).len() <= w.len(),
        cat(s) == w.take(cat(s).len() as int),
        cat(t).len() <= w.len(),
        cat(t) == w.take(cat(t).len() as int),
    ensures
        s == t,
        cat(s).len() == cat(t).len(),
    decreases s.len(),
{
    if s.len() > 0 {
        let n = s.len() - 1;
        lemma_cat_prefix(s, n, w);
        lemma_cat_prefix(t, n, w);
        assert(s.take(n) =~= s.drop_last());
        assert(t.take(n) =~= t.drop_last());
        lemma_cat_injective(s.drop_last(), t.drop_last(), w);
        assert(s[n].len() == t[n].len());
        let k = cat(s.drop_last()).len() as int;
        assert(s.last() =~= cat(s).skip(k));
        assert(t.last() =~= cat(t).skip(k));
        assert(s =~= s.drop_last().push(s.last()));
        assert(t =~= t.drop_last().push(t.last()));
    } else {
        assert(s =~= t);
    }
}

/// Element `j` of run `k`.
pub proof fn lemma_cat_index(s: Seq<Seq<u32>>, k: int, j: int)
    requires
        0 <= k < s.len(),
        0 <= j < s[k].len(),
    ensures
        cat(s.take(k)).len() + j < cat(s).len(),
        cat(s)[cat(s.take(k)).len() + j] == s[k][j],
    decreases s.len(),
{
    let t = s.drop_last();
    if k < s.len() - 1 {
        lemma_cat_index(t, k, j);
        assert(t.take(k) =~= s.take(k));
    } else {
        assert(s.take(k) =~= t);
    }
}

/// The word at byte `at`.
pub open spec fn word_at(b: Seq<u8>, at: int) -> u32 {
    le_word(b[at], b[at + 1], b[at + 2], b[at + 3])
}

/// Reads the word at byte `at`.
pub fn read_word_at(b: &[u8], at: usize) -> (r: u32)
    requires
        at + 4 <= b@.len(),
    ensures
        r == word_at(b@, at as int),
{
    proof {
        reveal(le_word);
    }
    let len: usize = b.len();
    b[at] as u32 + (b[at + 1] as u32) * 0x100 + (b[at + 2] as u32) * 0x1_0000 + (b[at + 3] as u32)
        * 0x100_0000
}

/// Byte `k` of a word.
pub fn le_byte(w: u32, k: usize) -> (r: u8)
    requires
        k < 4,
    ensures
        r == le_bytes(w)[k as int],
{
    proof {
        reveal(le_bytes);
    }
    if k == 0 {
        (w % 0x100) as u8
    } else if k == 1 {
        (w / 0x100 % 0x100) as u8
    } else if k == 2 {
        (w / 0x1_0000 % 0x100) as u8
    } else {
        (w / 0x100_0000) as u8
    }
}

/// Reads the whole words of a byte string.
pub fn read_words(b: &[u8]) -> (r: Vec<u32>)
    ensures
        r@ == bytes_to_words(b@),
{
    let n: usize = b.len() / 4;
    let mut r: Vec<u32> = Vec::new();
    let mut i: usize = 0;
    while i < n
        invariant
            n == b@.len() / 4,
            b@.len() <= usize::MAX,
            i <= n,
            r@ =~= bytes_to_words(b@).take(i as int),
        decreases n - i,
    {
        proof {
            reveal(le_word);
        }
        let w: u32 = b[4 * i] as u32 + (b[4 * i + 1] as u32) * 0x100 + (b[4 * i + 2] as u32)
            * 0x1_0000 + (b[4 * i + 3] as u32) * 0x100_0000;
        r.push(w);
        i += 1;
    }
    r
}

/// Writes words as little-endian bytes.
pub fn write_words(w: &[u32]) -> (r: Vec<u8>)
    ensures
        r@ == words_to_bytes(w@),
{
    let mut r: Vec<u8> = Vec::new();
    let mut i: usize = 0;
    while i < w.len()
        invariant
            i <= w@.len(),
            r@ =~= words_to_bytes(w@.take(i as int)),
        decreases w@.len() - i,
    {
        let x: u32 = w[i];
        let ghost before = r@;
        r.push((x % 0x100) as u8);
        r.push((x / 0x100 % 0x100) as u8);
        r.push((x / 0x1_0000 % 0x100) as u8);
        r.push((x / 0x100_0000) as u8);
        proof {
            reveal(le_bytes);
            let s = w@.take(i as int);
            let t = w@.take(i + 1);
            assert forall|j: int| 0 <= j < 4 * t.len() implies r@[j] == words_to_bytes(t)[j] by {
                if j < 4 * s.len() {
                    assert(before[j] == words_to_bytes(s)[j]);
                    assert(s[j / 4] == t[j / 4]);
                } else {
                    assert(j / 4 == i);
                }
            }
        }
        i += 1;
    }
    proof {
        assert(w@.take(w@.len() as int) =~= w@);
    }
    r
}

/// Something that is stored as a fixed number of words.
pub trait Record: Sized + Copy {
    /// Size in words.
    spec fn width() -> nat;

    /// The stored words.
    spec fn words(self) -> Seq<u32>;

    /// Records take up their width, at least one word and not more than fits a header.
    proof fn lemma_width(self)
        ensures
            self.words().len() == Self::width(),
            0 < Self::width() <= 0x100,
    ;

    /// Different records are stored differently.
    proof fn lemma_injective(self, other: Self)
        requires
            self.words() == other.words(),
        ensures
            self == other,
    ;

    fn width_words() -> (r: usize)
        ensures
            r == Self::width(),
    ;

    fn read(w: &[u32], at: usize) -> (r: Self)
        requires
            at + Self::width() <= w@.len(),
        ensures
            r.words() == w@.subrange(at as int, at + Self::width()),
    ;

    fn write(&self, out: &mut Vec<u32>)
        ensures
            final(out)@ == old(out)@ + self.words(),
    ;
}

/// The stored words of a run of records.
pub open spec fn flat<T: Record>(s: Seq<T>) -> Seq<u32>
    decreases s.len(),
{
    if s.len() == 0 {
        Seq::empty()
    } else {
        flat(s.drop_last()) + s.last().words()
    }
}

pub proof fn lemma_flat_len<T: Record>(s: Seq<T>)
    ensures
        flat(s).len() == s.len() * T::width(),
    decreases s.len(),
{
    if s.len() > 0 {
        lemma_flat_len(s.drop_last());
        s.last().lemma_width();
        let n = (s.len() - 1) as nat;
        let w = T::width();
        assert(n * w + w == (n + 1) * w) by (nonlinear_arith);
    } else {
        assert(0 * T::width() == 0) by (nonlinear_arith);
    }
}

pub proof fn lemma_flat_concat<T: Record>(a: Seq<T>, b: Seq<T>)
    ensures
        flat(a + b) == flat(a) + flat(b),
    decreases b.len(),
{
    if b.len() == 0 {
        assert(a + b =~= a);
        assert(flat(a) + flat(b) =~= flat(a));
    } else {
        assert((a + b).drop_last() =~= a + b.drop_last());
        lemma_flat_concat(a, b.drop_last());
        assert(flat(a) + flat(b) =~= (flat(a) + flat(b.drop_last())) + b.last().words());
    }
}

/// Runs of as many records that are stored alike are equal.
pub proof fn law_flat_injective<T: Record>(a: Seq<T>, b: Seq<T>)
    requires
        flat(a) == flat(b),
        a.len() == b.len(),
    ensures
        a == b,
    decreases a.len(),
{
    if a.len() > 0 {
        let n = (a.len() - 1) as nat;
        lemma_flat_len(a.drop_last());
        lemma_flat_len(b.drop_last());
        let k = flat(a.drop_last()).len() as int;
        assert(flat(a).take(k) =~= flat(a.drop_last()));
        assert(flat(b).take(k) =~= flat(b.drop_last()));
        assert(flat(a).skip(k) =~= a.last().words());
        assert(flat(b).skip(k) =~= b.last().words());
        law_flat_injective(a.drop_last(), b.drop_last());
        a.last().lemma_injective(b.last());
        assert(a =~= a.drop_last().push(a.last()));
        assert(b =~= b.drop_last().push(b.last()));
    } else {
        assert(a =~= b);
    }
}

/// Reads `count` records from word `at` on.
pub fn read_records<T: Record>(w: &[u32], at: usize, count: usize) -> (r: Vec<T>)
    requires
        at + count * T::width() <= w@.len(),
    ensures
        r@.len() == count,
        flat(r@) == w@.subrange(at as int, at + count * T::width()),
{
    let mut r: Vec<T> = Vec::new();
    let width: usize = T::width_words();
    let len: usize = w.len();
    let mut pos: usize = at;
    let mut i: usize = 0;
    proof {
        assert(0 * width == 0) by (nonlinear_arith);
        assert(flat(r@) =~= w@.subrange(at as int, at as int));
    }
    while i < count
        invariant
            width == T::width(),
            i <= count,
            pos == at + i * width,
            at + count * width <= w@.len() == len,
            at <= pos,
            r@.len() == i,
            flat(r@) == w@.subrange(at as int, pos as int),
        decreases count - i,
    {
        proof {
            assert(i * width + width == (i + 1) * width) by (nonlinear_arith);
            assert((i + 1) * width <= count * width) by (nonlinear_arith)
                requires
                    i + 1 <= count,
            ;
        }
        let x = T::read(w, pos);
        let ghost before = r@;
        r.push(x);
        proof {
            assert(r@.drop_last() =~= before);
            assert(w@.subrange(at as int, pos as int) + w@.subrange(pos as int, pos + width)
                =~= w@.subrange(at as int, pos + width));
        }
        pos += width;
        i += 1;
    }
    r
}

/// Appends the words of records.
pub fn write_records<T: Record>(s: &[T], out: &mut Vec<u32>)
    ensures
        final(out)@ == old(out)@ + flat(s@),
{
    let mut i: usize = 0;
    proof {
        assert(s@.take(0) =~= Seq::<T>::empty());
        assert(out@ =~= old(out)@ + flat(s@.take(0)));
    }
    while i < s.len()
        invariant
            i <= s@.len(),
            out@ == old(out)@ + flat(s@.take(i as int)),
        decreases s@.len() - i,
    {
        s[i].write(out);
        proof {
            assert(s@.take(i + 1).drop_last() =~= s@.take(i as int));
            assert(out@ =~= old(out)@ + flat(s@.take(i + 1)));
        }
        i += 1;
    }
    proof {
        assert(s@.take(s@.len() as int) =~= s@);
    }
}

/// Words are stored with their lowest byte first.
pub proof fn law_little_endian(b0: u8, b1: u8, b2: u8, b3: u8)
    ensures
        le_word(b0, b1, b2, b3) == b0 + 0x100 * b1 + 0x1_0000 * b2 + 0x100_0000 * b3,
        le_bytes(le_word(b0, b1, b2, b3)) == seq![b0, b1, b2, b3],
{
    reveal(le_word);
    reveal(le_bytes);
    let w = le_word(b0, b1, b2, b3);
    let q3 = b3 as int;
    let q2 = b2 + 0x100 * q3;
    let q1 = b1 + 0x100 * q2;
    assert(w == b0 + 0x100 * q1);
    assert(w / 0x100 == q1 && w % 0x100 == b0);
    assert(q1 / 0x100 == q2 && q1 % 0x100 == b1);
    assert(q2 / 0x100 == q3 && q2 % 0x100 == b2);
    assert(w / 0x1_0000 == q1 / 0x100);
    assert(w / 0x100_0000 == q2 / 0x100);
    assert(le_bytes(w) =~= seq![b0, b1, b2, b3]);
}

} // verus!
