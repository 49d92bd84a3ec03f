use vstd::prelude::*;
use vstd::string::StringSliceAdditionalSpecFns;
use vstd::utf8::*;

verus! {

broadcast use vstd::string::group_string_axioms;

/// The line feed byte, which ends a line.
pub const LF: u8 = 10;

/// The carriage return byte, dropped when it stands just before a line feed.
pub const CR: u8 = 13;

/// Position of the first line feed in `b`, or `b.len()` where there is none.
pub open spec fn line_end(b: Seq<u8>) -> int
    decreases b.len(),
{
    if b.len() == 0 {
        0
    } else if b[0] == LF {
        0
    } else {
        1 + line_end(b.subrange(1, b.len() as int))
    }
}

/// A line that was ended by a line feed, without a carriage return before it.
pub open spec fn strip_cr(line: Seq<u8>) -> Seq<u8> {
    if line.len() > 0 && line.last() == CR {
        line.drop_last()
    } else {
        line
    }
}

/// The lines of a text, in order. A line ends at a line feed or at the end of
/// the text; a carriage return just before the line feed is not part of the
/// line. A line feed at the very end starts no further line, and an empty
/// text has no lines.
pub open spec fn lines_of(b: Seq<u8>) -> Seq<Seq<u8>>
    decreases b.len(),
{
    let i = line_end(b);
    if b.len() == 0 {
        Seq::empty()
    } else if 0 <= i < b.len() {
        seq![strip_cr(b.subrange(0, i))] + lines_of(b.subrange(i + 1, b.len() as int))
    } else {
        seq![b]
    }
}

/// `line_end` is the first line feed, as a scan from the front finds it.
pub proof fn lemma_line_end(b: Seq<u8>, i: int)
    requires
        0 <= i <= b.len(),
        forall|t: int| 0 <= t < i ==> b[t] != LF,
        i == b.len() || b[i] == LF,
    ensures
        line_end(b) == i,
    decreases b.len(),
{
    if b.len() == 0 {
    } else if b[0] == LF {
    } else {
        let tail = b.subrange(1, b.len() as int);
        lemma_line_end(tail, i - 1);
    }
}

/// A byte below 0x80 in a UTF-8 text is a whole character, so the text may be
/// split on both sides of it.
proof fn lemma_ascii_boundary(b: Seq<u8>, i: int)
    requires
        valid_utf8(b),
        0 <= i < b.len(),
        b[i] < 0x80,
    ensures
        is_char_boundary(b, i),
{
    is_char_boundary_iff_not_is_continuation_byte(b, i);
}

/// In a UTF-8 text that starts with a byte below 0x80, the second byte starts
/// a character.
proof fn lemma_after_ascii_first(b: Seq<u8>)
    requires
        valid_utf8(b),
        b.len() > 0,
        b[0] < 0x80,
    ensures
        is_char_boundary(b, 1),
{
    reveal_with_fuel(is_char_boundary, 2);
    assert(length_of_first_scalar(b) == 1);
    let rest = pop_first_scalar(b);
    assert(is_char_boundary(rest, 0));
}

/// Splits off the first line of a non-empty text: returns that line and the
/// text after its line feed. Both are views into `rest`.
pub fn next_line<'a>(rest: &'a str) -> (res: (&'a str, &'a str))
    requires
        rest.spec_bytes().len() > 0,
    ensures
        lines_of(rest.spec_bytes()) == seq![res.0.spec_bytes()] + lines_of(res.1.spec_bytes()),
        res.1.spec_bytes().len() < rest.spec_bytes().len(),
{
    broadcast use encode_utf8_valid_utf8;

    let bytes = rest.as_bytes();
    let n = bytes.len();
    let ghost b = rest.spec_bytes();
    let mut i: usize = 0;
    while i < n && bytes[i] != LF
        invariant
            bytes@ == b,
            n == b.len(),
            0 <= i <= n,
            forall|t: int| 0 <= t < i ==> b[t] != LF,
        decreases n - i,
    {
        i = i + 1;
    }
    proof {
        lemma_line_end(b, i as int);
    }
    if i == n {
        proof {
            is_char_boundary_start_end_of_seq(b);
        }
        let (whole, empty) = rest.split_at(n);
        proof {
            assert(b.subrange(0, n as int) =~= b);
            assert(lines_of(empty.spec_bytes()) =~= Seq::<Seq<u8>>::empty());
            assert(lines_of(b) =~= seq![whole.spec_bytes()] + lines_of(empty.spec_bytes()));
        }
        return (whole, empty);
    }
    proof {
        lemma_ascii_boundary(b, i as int);
    }
    let (line, feed_and_tail) = rest.split_at(i);
    proof {
        let t = feed_and_tail.spec_bytes();
        assert(t[0] == LF);
        lemma_after_ascii_first(t);
    }
    let (_feed, tail) = feed_and_tail.split_at(1);
    proof {
        assert(tail.spec_bytes() =~= b.subrange(i + 1, b.len() as int));
    }
    let line_len = line.len();
    if line_len > 0 && line.as_bytes()[line_len - 1] == CR {
        proof {
            lemma_ascii_boundary(line.spec_bytes(), line_len - 1);
        }
        let (stripped, _cr) = line.split_at(line_len - 1);
        proof {
            assert(stripped.spec_bytes() =~= strip_cr(line.spec_bytes()));
        }
        (stripped, tail)
    } else {
        (line, tail)
    }
}

} // verus!
