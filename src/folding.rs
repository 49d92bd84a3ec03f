use vstd::prelude::*;
use vstd::utf8::*;

verus! {

/// The lower-case form of a text, by Unicode's lowercase mapping.
pub uninterp spec fn lower_of(s: Seq<char>) -> Seq<char>;

/// An ASCII capital letter's small letter; every other byte stays.
pub open spec fn ascii_lower_byte(x: u8) -> u8 {
    if 0x41 <= x <= 0x5a {
        (x + 0x20) as u8
    } else {
        x
    }
}

/// Every ASCII capital letter of `b` made small.
pub open spec fn ascii_lowered(b: Seq<u8>) -> Seq<u8> {
    b.map_values(|x: u8| ascii_lower_byte(x))
}

/// Every byte of `b` is an ASCII character.
pub open spec fn is_ascii_bytes(b: Seq<u8>) -> bool {
    forall|j: int| 0 <= j < b.len() ==> b[j] < 0x80
}

/// The UTF-8 bytes of the lower-case form of the text that `b` encodes.
pub open spec fn folded(b: Seq<u8>) -> Seq<u8> {
    encode_utf8(lower_of(decode_utf8(b)))
}

/// Relies on `str::to_lowercase`, which lowers a text by Unicode's lowercase
/// mapping: the result is a function of the characters alone, and on ASCII
/// text it only turns 'A'..='Z' into 'a'..='z'.
#[verifier::external_body]
pub(crate) fn to_lowercase(s: &str) -> (r: String)
    ensures
        r@ == lower_of(s@),
        is_ascii_chars(s@) ==> encode_utf8(r@) == ascii_lowered(encode_utf8(s@)),
{
    s.to_lowercase()
}

/// Bytes below 0x80 are valid UTF-8, each one character below 0x80.
pub proof fn lemma_decode_ascii(b: Seq<u8>)
    requires
        is_ascii_bytes(b),
    ensures
        valid_utf8(b),
        is_ascii_chars(decode_utf8(b)),
    decreases b.len(),
{
    if b.len() > 0 {
        let rest = b.subrange(1, b.len() as int);
        lemma_decode_ascii(rest);
        let x = b[0];
        assert(x & 0x7f == x) by (bit_vector)
            requires
                x < 0x80,
        ;
        assert(valid_first_scalar(b));
        assert(pop_first_scalar(b) =~= rest);
        let d = decode_utf8(b);
        let c = decode_first_scalar(b) as char;
        assert(d =~= seq![c] + decode_utf8(rest));
        assert forall|i: int| 0 <= i < d.len() implies '\0' <= #[trigger] d[i] <= '\u{7f}' by {
            if i > 0 {
                assert(d[i] == decode_utf8(rest)[i - 1]);
            }
        }
    }
}

/// A text is ASCII when its UTF-8 bytes are.
pub proof fn lemma_ascii_bytes_chars(s: Seq<char>)
    requires
        is_ascii_bytes(encode_utf8(s)),
    ensures
        is_ascii_chars(s),
{
    lemma_decode_ascii(encode_utf8(s));
    encode_utf8_decode_utf8(s);
}

} // verus!
