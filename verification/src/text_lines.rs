//! The lines of a text.

use crate::paths::views;
use crate::strings::{
    encode_utf8_concat, lemma_ascii_bytes, lemma_ascii_contained, lemma_ascii_last,
    lemma_encode_injective,
};
use vstd::prelude::*;
use vstd::string::StringExecFns;
use vstd::utf8::{
    char_is_scalar, encode_scalar, encode_utf8, encode_utf8_valid_utf8, is_char_boundary,
    is_char_boundary_iff_not_is_continuation_byte, is_char_boundary_start_end_of_seq,
};

verus! {

/// Position of the first line feed, or the length if there is none.
pub open spec fn line_feed(text: Seq<char>) -> int
    decreases text.len(),
{
    if text.len() == 0 || text[0] == '\n' {
        0
    } else {
        1 + line_feed(text.drop_first())
    }
}

proof fn lemma_line_feed(text: Seq<char>, n: int)
    requires
        0 <= n <= text.len(),
        !text.take(n).contains('\n'),
        n < text.len() ==> text[n] == '\n',
    ensures
        line_feed(text) == n,
    decreases text.len(),
{
    if n > 0 {
        assert(text.take(n)[0] == text[0]);
        assert(text.take(n).contains(text[0]));
        let rest = text.drop_first();
        assert forall|i: int| 0 <= i < n - 1 implies #[trigger] rest.take(n - 1)[i] != '\n' by {
            assert(text.take(n)[i + 1] == rest[i]);
            assert(text.take(n).contains(text.take(n)[i + 1]));
        }
        lemma_line_feed(rest, n - 1);
    }
}

/// A line without the carriage return at its end.
pub open spec fn without_return(line: Seq<char>) -> Seq<char> {
    if line.len() > 0 && line.last() == '\r' {
        line.drop_last()
    } else {
        line
    }
}

/// The lines of a text. A line ends with a line feed, which may have a carriage return in front. The last
/// line may be without one.
pub open spec fn lines_of(text: Seq<char>) -> Seq<Seq<char>>
    decreases text.len(),
{
    let n = line_feed(text);
    if text.len() == 0 {
        Seq::empty()
    } else if n < 0 || n >= text.len() {
        seq![text]
    } else {
        seq![without_return(text.take(n))] + lines_of(text.skip(n + 1))
    }
}

/// A string whose first byte is an ASCII character starts with that character.
proof fn lemma_first_ascii(s: Seq<char>, x: char)
    requires
        s.len() > 0,
        x as u32 <= 0x7F,
        encode_utf8(s).len() > 0,
        encode_utf8(s)[0] == x as u8,
    ensures
        s[0] == x,
{
    let c = s[0] as u32;
    char_is_scalar(s[0]);
    let one = seq![s[0]];
    assert(one.drop_first() =~= Seq::<char>::empty());
    assert(encode_utf8(Seq::<char>::empty()) =~= Seq::<u8>::empty());
    assert(encode_utf8(one) =~= encode_scalar(c));
    assert(s =~= one + s.drop_first());
    encode_utf8_concat(one, s.drop_first());
    assert(forall|y: u8| 0xC0u8 | y >= 0x80u8 && 0xE0u8 | y >= 0x80u8 && 0xF0u8 | y >= 0x80u8)
        by (bit_vector);
    if c <= 0x7F {
        lemma_ascii_bytes(s[0]);
        lemma_ascii_bytes(x);
        assert(encode_utf8(one)[0] == x as u8);
        assert(one =~= seq![x]) by {
            assert(encode_utf8(one) =~= encode_utf8(seq![x]));
            lemma_encode_injective(one, seq![x]);
        }
        assert(one[0] == seq![x][0]);
    } else {
        assert(encode_scalar(c)[0] >= 0x80u8);
    }
}

/// Splits a string at a byte that is an ASCII character. The character is left out.
fn split_at_ascii<'a>(text: &'a str, n: usize, Ghost(x): Ghost<char>) -> (r: (&'a str, &'a str))
    requires
        x as u32 <= 0x7F,
        n < encode_utf8(text@).len(),
        encode_utf8(text@)[n as int] == x as u8,
    ensures
        text@ == r.0@ + seq![x] + r.1@,
        encode_utf8(r.0@) == encode_utf8(text@).take(n as int),
{
    let ghost b = encode_utf8(text@);
    proof {
        let c = x as u8;
        assert(c <= 0x7F ==> c & 0xC0 != 0x80) by (bit_vector);
        encode_utf8_valid_utf8(text@);
        is_char_boundary_start_end_of_seq(b);
        is_char_boundary_iff_not_is_continuation_byte(b, n as int);
    }
    let (line, tail) = text.split_at(n);
    let ghost t = encode_utf8(tail@);
    proof {
        assert(t =~= b.skip(n as int));
        assert(t[0] == x as u8);
        assert(tail@.len() > 0) by {
            if tail@.len() == 0 {
                assert(encode_utf8(tail@) =~= Seq::empty());
            }
        }
        lemma_first_ascii(tail@, x);
        assert(tail@ =~= seq![x] + tail@.drop_first());
        encode_utf8_concat(seq![x], tail@.drop_first());
        lemma_ascii_bytes(x);
        encode_utf8_valid_utf8(tail@);
        let c = x as u8;
        assert(c <= 0x7F ==> c & 0x80 == 0) by (bit_vector);
        reveal_with_fuel(is_char_boundary, 2);
        assert(is_char_boundary(t, 1));
    }
    let (_, rest) = tail.split_at(1);
    proof {
        assert(encode_utf8(rest@) =~= encode_utf8(tail@.drop_first()));
        lemma_encode_injective(rest@, tail@.drop_first());
        encode_utf8_concat(line@, tail@);
        assert(encode_utf8(line@ + tail@) =~= b);
        lemma_encode_injective(line@ + tail@, text@);
        assert(text@ =~= line@ + seq![x] + rest@);
    }
    (line, rest)
}

/// The lines of a text.
pub fn split_lines(text: &str) -> (r: Vec<String>)
    ensures
        views(r@) == lines_of(text@),
{
    let mut lines: Vec<String> = Vec::new();
    let mut rest: &str = text;
    proof {
        assert(views(lines@) =~= Seq::empty());
        assert(Seq::<Seq<char>>::empty() + lines_of(text@) =~= lines_of(text@));
    }
    while !rest.is_empty()
        invariant
            views(lines@) + lines_of(rest@) == lines_of(text@),
        decreases rest@.len(),
    {
        let ghost done = lines@;
        let n: usize = find_byte(rest.as_bytes(), 0x0A);
        if n == rest.as_bytes().len() {
            proof {
                if rest@.contains('\n') {
                    lemma_ascii_contained(rest@, '\n');
                    let i = encode_utf8(rest@).index_of(0x0A);
                    assert(encode_utf8(rest@)[i] == 0x0A);
                }
                assert(rest@.take(rest@.len() as int) =~= rest@);
                lemma_line_feed(rest@, rest@.len() as int);
            }
            let line: String = String::from_str(rest);
            lines.push(line);
            proof {
                assert(views(lines@) =~= views(done) + seq![rest@]);
                assert(views(lines@) =~= lines_of(text@));
            }
            return lines;
        }
        let (line, tail) = split_at_ascii(rest, n, Ghost('\n'));
        proof {
            if line@.contains('\n') {
                lemma_ascii_contained(line@, '\n');
                let i = encode_utf8(line@).index_of(0x0A);
                assert(encode_utf8(line@)[i] == encode_utf8(rest@)[i]);
            }
            let k = line@.len() as int;
            assert(rest@.take(k) =~= line@);
            assert(rest@.skip(k + 1) =~= tail@);
            assert(rest@[k] == '\n');
            lemma_line_feed(rest@, k);
        }
        let stripped = strip_return(line);
        lines.push(String::from_str(stripped));
        proof {
            assert(views(lines@) =~= views(done) + seq![without_return(line@)]);
            assert(views(lines@) + lines_of(tail@) =~= views(done) + (seq![
                without_return(line@),
            ] + lines_of(tail@)));
        }
        rest = tail;
    }
    proof {
        assert(views(lines@) =~= lines_of(text@));
    }
    lines
}

/// Position of the first byte with this value, or the length if there is none.
fn find_byte(bytes: &[u8], value: u8) -> (r: usize)
    ensures
        r <= bytes@.len(),
        forall|i: int| 0 <= i < r ==> bytes@[i] != value,
        r < bytes@.len() ==> bytes@[r as int] == value,
{
    let mut n: usize = 0;
    while n < bytes.len() && bytes[n] != value
        invariant
            n <= bytes@.len(),
            forall|i: int| 0 <= i < n ==> bytes@[i] != value,
        decreases bytes@.len() - n,
    {
        n += 1;
    }
    n
}

fn strip_return<'a>(line: &'a str) -> (r: &'a str)
    ensures
        r@ == without_return(line@),
{
    let n: usize = line.as_bytes().len();
    proof {
        if line@.len() > 0 {
            lemma_ascii_last(line@, '\r');
        } else {
            assert(encode_utf8(line@) =~= Seq::empty());
        }
    }
    if n > 0 && line.as_bytes()[n - 1] == 0x0D {
        let (front, tail) = split_at_ascii(line, n - 1, Ghost('\r'));
        proof {
            assert(encode_utf8(front@).len() == n - 1);
            encode_utf8_concat(front@ + seq!['\r'], tail@);
            encode_utf8_concat(front@, seq!['\r']);
            lemma_ascii_bytes('\r');
            assert(encode_utf8(tail@).len() == 0);
            if tail@.len() > 0 {
                lemma_ascii_last(tail@, '\r');
            }
            assert(line@.drop_last() =~= front@);
        }
        front
    } else {
        line
    }
}

/// The first line of a text ends at its first line feed, and the other lines are those of the rest. A
/// carriage return in front of a line feed belongs to the end of the line. Text behind the last line feed is
/// a line of its own, as it stands.
pub proof fn law_lines(line: Seq<char>, rest: Seq<char>)
    requires
        !line.contains('\n'),
    ensures
        lines_of(line + seq!['\n'] + rest) == seq![without_return(line)] + lines_of(rest),
        line.len() > 0 ==> lines_of(line) == seq![line],
        lines_of(Seq::empty()) == Seq::<Seq<char>>::empty(),
        without_return(line.push('\r')) == line,
        line.len() > 0 && line.last() != '\r' ==> without_return(line) == line,
{
    let text = line + seq!['\n'] + rest;
    assert(text.take(line.len() as int) =~= line);
    lemma_line_feed(text, line.len() as int);
    assert(text.skip((line.len() + 1) as int) =~= rest);
    assert(line.take(line.len() as int) =~= line);
    lemma_line_feed(line, line.len() as int);
    assert(line.push('\r').drop_last() =~= line);
}

} // verus!
