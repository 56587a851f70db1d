//! What the rewriter takes on trust of the standard library's `char` and
//! `String`.
//!
//! Texts are seen as sequences of `char`s and their bytes as `encode_utf8`
//! of them; the contracts here say what each function does in those terms.
//! None of them is proved.

use vstd::prelude::*;
use vstd::utf8::*;

verus! {

/// Specifies `char::len_utf8`: the number of bytes that the character takes
/// when encoded as UTF-8.
pub assume_specification[ char::len_utf8 ](c: char) -> (n: usize)
    ensures
        n == encode_scalar(c as u32).len(),
;

/// Calls `char::encode_utf8`, which writes the UTF-8 encoding of `c` to the
/// front of the buffer. Four bytes hold any character, so the call cannot
/// fail. Nothing is claimed of the bytes behind the encoding.
#[verifier::external_body]
pub(crate) fn encode_char(c: char, d: &mut [u8; 4])
    ensures
        encode_scalar(c as u32).is_prefix_of(final(d)@),
{
    c.encode_utf8(d);
}

/// Specifies `String::push`: the character is appended to the end of the
/// string.
pub assume_specification[ String::push ](s: &mut String, c: char)
    ensures
        final(s)@ == old(s)@.push(c),
;

/// Specifies `String::push_str`: the slice is appended to the end of the
/// string.
pub assume_specification[ String::push_str ](s: &mut String, other: &str)
    ensures
        final(s)@ == old(s)@ + other@,
;

/// Specifies `String::truncate`: a string longer than `new_len` bytes is cut
/// to its first `new_len` bytes, any other is left as it is. The call panics
/// where it would cut inside a character, so the offset has to be a character
/// boundary.
pub assume_specification[ String::truncate ](s: &mut String, new_len: usize)
    requires
        new_len < encode_utf8(old(s)@).len() ==> is_char_boundary(
            encode_utf8(old(s)@),
            new_len as int,
        ),
    ensures
        new_len < encode_utf8(old(s)@).len() ==> encode_utf8(final(s)@) == encode_utf8(
            old(s)@,
        ).subrange(0, new_len as int),
        new_len >= encode_utf8(old(s)@).len() ==> final(s)@ == old(s)@,
;

} // verus!
