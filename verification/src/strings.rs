//! Comparing strings by their UTF-8 bytes, and writing numbers.

use vstd::prelude::*;
use vstd::string::StringExecFns;
use vstd::utf8::{char_is_scalar, encode_scalar, encode_utf8, encode_utf8_decode_utf8};

verus! {

/// Strings with the same bytes are equal.
pub proof fn lemma_encode_injective(a: Seq<char>, b: Seq<char>)
    requires
        encode_utf8(a) == encode_utf8(b),
    ensures
        a == b,
{
    encode_utf8_decode_utf8(a);
    encode_utf8_decode_utf8(b);
}

/// The bytes of two strings, one behind the other.
pub proof fn encode_utf8_concat(a: Seq<char>, b: Seq<char>)
    ensures
        encode_utf8(a + b) == encode_utf8(a) + encode_utf8(b),
    decreases a.len(),
{
    if a.len() == 0 {
        assert(a + b =~= b);
        assert(encode_utf8(a) + encode_utf8(b) =~= encode_utf8(b));
    } else {
        assert((a + b).drop_first() =~= a.drop_first() + b);
        encode_utf8_concat(a.drop_first(), b);
        assert(encode_utf8(a) + encode_utf8(b) =~= encode_scalar(a[0] as u32) + (encode_utf8(
            a.drop_first(),
        ) + encode_utf8(b)));
    }
}

/// The bytes of an ASCII character.
pub proof fn lemma_ascii_bytes(x: char)
    requires
        x as u32 <= 0x7F,
    ensures
        encode_utf8(seq![x]) == seq![x as u8],
{
    let one = seq![x];
    let c = x as u32;
    assert(one.drop_first() =~= Seq::<char>::empty());
    assert(encode_utf8(Seq::<char>::empty()) =~= Seq::<u8>::empty());
    assert((c <= 0x7F ==> (c & 0x7F) as u8 == c)) by (bit_vector);
    assert(encode_utf8(one) =~= encode_scalar(c));
    assert(encode_utf8(one) =~= seq![x as u8]);
}

/// A string ends with an ASCII character if its bytes do.
pub proof fn lemma_ascii_last(s: Seq<char>, x: char)
    requires
        s.len() > 0,
        x as u32 <= 0x7F,
    ensures
        encode_utf8(s).len() > 0,
        encode_utf8(s).last() == x as u8 <==> s.last() == x,
{
    let c = s.last() as u32;
    char_is_scalar(s.last());
    assert(s =~= s.drop_last() + seq![s.last()]);
    encode_utf8_concat(s.drop_last(), seq![s.last()]);
    let one = seq![s.last()];
    assert(one.drop_first() =~= Seq::<char>::empty());
    assert(encode_utf8(Seq::<char>::empty()) =~= Seq::<u8>::empty());
    assert(encode_utf8(one) =~= encode_scalar(one[0] as u32));
    assert(0x80u8 | (c & 0x3F) as u8 >= 0x80u8 && (c <= 0x7F ==> (c & 0x7F) as u8 == c)) by (bit_vector);
    lemma_ascii_bytes(x);
    if c == x as u32 {
        lemma_ascii_bytes(s.last());
        lemma_encode_injective(one, seq![x]);
        assert(one[0] == seq![x][0]);
    }
}

/// A string ends with a slash if its bytes do.
pub proof fn lemma_slash_last(s: Seq<char>)
    requires
        s.len() > 0,
    ensures
        encode_utf8(s).len() > 0,
        encode_utf8(s).last() == 0x2F <==> s.last() == '/',
{
    lemma_ascii_last(s, '/');
}

/// The bytes of an ASCII character are among those of a string that holds it.
pub proof fn lemma_ascii_contained(s: Seq<char>, x: char)
    requires
        s.contains(x),
        x as u32 <= 0x7F,
    ensures
        encode_utf8(s).contains(x as u8),
{
    let i = s.index_of(x);
    let a = s.take(i);
    let b = s.skip(i + 1);
    assert(s =~= (a + seq![x]) + b);
    encode_utf8_concat(a + seq![x], b);
    encode_utf8_concat(a, seq![x]);
    lemma_ascii_bytes(x);
    assert(encode_utf8(s)[encode_utf8(a).len() as int] == x as u8);
}

/// Are two byte strings equal?
pub fn bytes_eq(a: &[u8], b: &[u8]) -> (r: bool)
    ensures
        r == (a@ == b@),
{
    if a.len() != b.len() {
        return false;
    }
    let mut i: usize = 0;
    while i < a.len()
        invariant
            a@.len() == b@.len(),
            i <= a@.len(),
            forall|j: int| 0 <= j < i ==> a@[j] == b@[j],
        decreases a@.len() - i,
    {
        if a[i] != b[i] {
            return false;
        }
        i += 1;
    }
    proof {
        assert(a@ =~= b@);
    }
    true
}

/// Are two strings equal?
pub fn str_eq(a: &str, b: &str) -> (r: bool)
    ensures
        r == (a@ == b@),
{
    let r: bool = bytes_eq(a.as_bytes(), b.as_bytes());
    proof {
        if r {
            lemma_encode_injective(a@, b@);
        }
    }
    r
}

/// The decimal digit with this value.
pub open spec fn digit_char(d: int) -> char {
    (0x30 + d) as u8 as char
}

/// The decimal digits of a number.
pub open spec fn decimal(n: nat) -> Seq<char>
    decreases n,
{
    if n < 10 {
        seq![digit_char(n as int)]
    } else {
        decimal(n / 10).push(digit_char((n % 10) as int))
    }
}

fn digit_text(d: usize) -> (r: &'static str)
    requires
        d < 10,
    ensures
        r@ == seq![digit_char(d as int)],
{
    proof {
        reveal_strlit("0");
        reveal_strlit("1");
        reveal_strlit("2");
        reveal_strlit("3");
        reveal_strlit("4");
        reveal_strlit("5");
        reveal_strlit("6");
        reveal_strlit("7");
        reveal_strlit("8");
        reveal_strlit("9");
    }
    let r: &'static str = match d {
        0 => "0",
        1 => "1",
        2 => "2",
        3 => "3",
        4 => "4",
        5 => "5",
        6 => "6",
        7 => "7",
        8 => "8",
        _ => "9",
    };
    proof {
        assert(r@ =~= seq![digit_char(d as int)]);
    }
    r
}

/// The number in decimal digits.
pub fn decimal_text(n: usize) -> (r: String)
    ensures
        r@ == decimal(n as nat),
    decreases n,
{
    if n < 10 {
        String::from_str(digit_text(n))
    } else {
        let mut r: String = decimal_text(n / 10);
        r.append(digit_text(n % 10));
        proof {
            assert(r@ =~= decimal(n as nat));
        }
        r
    }
}

/// The number that decimal digits spell.
pub open spec fn decimal_value(s: Seq<char>) -> int
    decreases s.len(),
{
    if s.len() == 0 {
        0
    } else {
        10 * decimal_value(s.drop_last()) + (s.last() as u32 - '0' as u32)
    }
}

/// The digits of a number spell it. They are all digits, and no zero is in front but that of zero itself.
pub proof fn law_decimal(n: nat)
    ensures
        decimal_value(decimal(n)) == n,
        decimal(n).len() > 0,
        forall|i: int| 0 <= i < decimal(n).len() ==> '0' <= #[trigger] decimal(n)[i] <= '9',
        n > 0 ==> decimal(n)[0] != '0',
    decreases n,
{
    let s = decimal(n);
    if n < 10 {
        assert(s.drop_last() =~= Seq::empty());
        assert(decimal_value(s.drop_last()) == 0);
    } else {
        law_decimal(n / 10);
        assert(s.drop_last() =~= decimal(n / 10));
        assert(s[0] == decimal(n / 10)[0]);
        assert forall|i: int| 0 <= i < s.len() implies '0' <= #[trigger] s[i] <= '9' by {
            if i < s.len() - 1 {
                assert(s[i] == decimal(n / 10)[i]);
            }
        }
    }
}

} // verus!
