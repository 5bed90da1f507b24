//! Characters of UTF-8 text, addressed by byte offset.

use vstd::prelude::*;
use vstd::string::*;
use vstd::utf8::*;

verus! {

/// The character whose encoding starts `bytes`.
pub open spec fn first_char(bytes: Seq<u8>) -> char {
    decode_first_scalar(bytes) as char
}

/// The number of bytes that the encoding of the first character takes.
pub open spec fn first_char_len(bytes: Seq<u8>) -> int {
    length_of_first_scalar(bytes)
}

/// The bytes of `bytes` from offset `pos` on.
pub open spec fn tail(bytes: Seq<u8>, pos: int) -> Seq<u8> {
    bytes.subrange(pos, bytes.len() as int)
}

/// White space as Unicode defines it (the property `White_Space`).
pub open spec fn is_whitespace(c: char) -> bool {
    let u = c as u32;
    ||| 0x09 <= u <= 0x0d
    ||| u == 0x20
    ||| u == 0x85
    ||| u == 0xa0
    ||| u == 0x1680
    ||| 0x2000 <= u <= 0x200a
    ||| u == 0x2028
    ||| u == 0x2029
    ||| u == 0x202f
    ||| u == 0x205f
    ||| u == 0x3000
}

/// Tells whether `c` is white space.
pub fn char_is_whitespace(c: char) -> (r: bool)
    ensures
        r == is_whitespace(c),
{
    let u: u32 = c as u32;
    (0x09 <= u && u <= 0x0d) || u == 0x20 || u == 0x85 || u == 0xa0 || u == 0x1680 || (0x2000 <= u
        && u <= 0x200a) || u == 0x2028 || u == 0x2029 || u == 0x202f || u == 0x205f || u == 0x3000
}

/// The number of bytes in the UTF-8 encoding of `c`.
pub fn char_width(c: char) -> (w: usize)
    ensures
        w == encode_scalar(c as u32).len(),
        1 <= w <= 4,
{
    let u: u32 = c as u32;
    if u <= 0x7f {
        1
    } else if u <= 0x7ff {
        2
    } else if u <= 0xffff {
        3
    } else {
        4
    }
}

/// A valid encoding that is not empty starts with a whole character.
pub proof fn lemma_first_char_fits(bytes: Seq<u8>)
    requires
        valid_utf8(bytes),
        bytes.len() > 0,
    ensures
        1 <= first_char_len(bytes) <= bytes.len(),
        valid_utf8(tail(bytes, first_char_len(bytes))),
{
}

/// The offset just behind the character that starts at a character boundary
/// is a character boundary again.
pub proof fn lemma_boundary_after_char(bytes: Seq<u8>, pos: int)
    requires
        valid_utf8(bytes),
        is_char_boundary(bytes, pos),
        0 <= pos < bytes.len(),
    ensures
        valid_utf8(tail(bytes, pos)),
        1 <= first_char_len(tail(bytes, pos)),
        pos + first_char_len(tail(bytes, pos)) <= bytes.len(),
        is_char_boundary(bytes, pos + first_char_len(tail(bytes, pos))),
{
    valid_utf8_split(bytes, pos);
    let suffix = tail(bytes, pos);
    lemma_first_char_fits(suffix);
    let w = first_char_len(suffix);
    let next = pos + w;
    if next == bytes.len() {
        is_char_boundary_start_end_of_seq(bytes);
    } else {
        let rest = tail(suffix, w);
        assert(rest.len() > 0);
        assert(valid_first_scalar(rest));
        assert(rest[0] == bytes[next]);
        is_char_boundary_iff_not_is_continuation_byte(bytes, next);
    }
}

/// A character boundary of a suffix that starts at a character boundary is a
/// character boundary of the whole.
pub proof fn lemma_boundary_of_tail(bytes: Seq<u8>, pos: int, k: int)
    requires
        valid_utf8(bytes),
        is_char_boundary(bytes, pos),
        0 <= pos <= bytes.len(),
        0 <= k <= bytes.len() - pos,
        is_char_boundary(tail(bytes, pos), k),
    ensures
        is_char_boundary(bytes, pos + k),
{
    valid_utf8_split(bytes, pos);
    let suffix = tail(bytes, pos);
    if pos + k == bytes.len() {
        is_char_boundary_start_end_of_seq(bytes);
    } else {
        is_char_boundary_iff_not_is_continuation_byte(suffix, k);
        assert(suffix[k] == bytes[pos + k]);
        is_char_boundary_iff_not_is_continuation_byte(bytes, pos + k);
    }
}

/// The text of `s` from byte offset `pos` on.
pub(crate) fn str_tail<'a>(s: &'a str, pos: usize) -> (r: &'a str)
    requires
        pos <= s.spec_bytes().len(),
        is_char_boundary(s.spec_bytes(), pos as int),
    ensures
        r.spec_bytes() == tail(s.spec_bytes(), pos as int),
{
    let (_, r) = s.split_at(pos);
    r
}

/// The first character of a text that is not empty.
pub(crate) fn leading_char(s: &str) -> (c: char)
    requires
        s.spec_bytes().len() > 0,
    ensures
        c == first_char(s.spec_bytes()),
        encode_scalar(c as u32).len() == first_char_len(s.spec_bytes()),
{
    proof {
        encode_utf8_first_scalar(s@);
    }
    let c = s.get_char(0);
    proof {
        char_u32_cast(c, decode_first_scalar(s.spec_bytes()));
    }
    c
}

} // verus!
