//! Facts about the UTF-8 encoding of texts that the rewriter rests on.
//!
//! A text is a sequence of `char`s; its bytes are `encode_utf8` of it. The
//! rewriter compares bytes and keeps a byte offset, while its contract speaks
//! of texts, so the lemmas here carry statements from one side to the other.

use vstd::prelude::*;
use vstd::utf8::*;

verus! {

/// The encoding of a concatenation is the concatenation of the encodings.
pub proof fn lemma_encode_concat(a: Seq<char>, b: Seq<char>)
    ensures
        encode_utf8(a + b) == encode_utf8(a) + encode_utf8(b),
    decreases a.len(),
{
    if a.len() == 0 {
        assert(a + b =~= b);
        assert(encode_utf8(a) + encode_utf8(b) =~= encode_utf8(b));
    } else {
        lemma_encode_concat(a.drop_first(), b);
        assert((a + b).drop_first() =~= a.drop_first() + b);
        assert((a + b)[0] == a[0]);
        assert(encode_utf8(a + b) =~= encode_utf8(a) + encode_utf8(b));
    }
}

/// The encoding of a single character is the encoding of its scalar value.
pub proof fn lemma_encode_single(c: char)
    ensures
        encode_utf8(seq![c]) == encode_scalar(c as u32),
{
    reveal_with_fuel(encode_utf8, 2);
    assert(seq![c].drop_first() =~= Seq::<char>::empty());
    assert(encode_utf8(seq![c]) =~= encode_scalar(c as u32));
}

/// Where a prefix of valid UTF-8 is itself valid UTF-8, it ends on a character boundary.
pub proof fn lemma_valid_prefix_is_boundary(bytes: Seq<u8>, k: int)
    requires
        valid_utf8(bytes),
        0 <= k <= bytes.len(),
        valid_utf8(bytes.subrange(0, k)),
    ensures
        is_char_boundary(bytes, k),
    decreases bytes.len(),
{
    if k != 0 {
        let head = bytes.subrange(0, k);
        let n = length_of_first_scalar(bytes);
        assert(head[0] == bytes[0]);
        assert(length_of_first_scalar(head) == n);
        assert(n <= k);
        assert(pop_first_scalar(head) =~= pop_first_scalar(bytes).subrange(0, k - n));
        lemma_valid_prefix_is_boundary(pop_first_scalar(bytes), k - n);
    }
}

/// The bytes before a character boundary of a text's encoding are the
/// encoding of a prefix of the text.
pub proof fn lemma_boundary_prefix(text: Seq<char>, k: int)
    requires
        is_char_boundary(encode_utf8(text), k),
        0 <= k <= encode_utf8(text).len(),
    ensures
        decode_utf8(encode_utf8(text).subrange(0, k)).is_prefix_of(text),
        encode_utf8(decode_utf8(encode_utf8(text).subrange(0, k))) == encode_utf8(text).subrange(
            0,
            k,
        ),
{
    let bytes = encode_utf8(text);
    encode_utf8_valid_utf8(text);
    encode_utf8_decode_utf8(text);
    valid_utf8_split(bytes, k);
    decode_utf8_split(bytes, k);
    decode_utf8_encode_utf8(bytes.subrange(0, k));
    let head = decode_utf8(bytes.subrange(0, k));
    let tail = decode_utf8(bytes.subrange(k, bytes.len() as int));
    assert(text =~= head + tail);
    assert(head =~= text.subrange(0, head.len() as int));
}

/// One text is a prefix of another exactly if its bytes are a prefix of the other's bytes.
pub proof fn lemma_prefix_chars_iff_bytes(a: Seq<char>, b: Seq<char>)
    ensures
        a.is_prefix_of(b) <==> encode_utf8(a).is_prefix_of(encode_utf8(b)),
{
    if a.is_prefix_of(b) {
        let rest = b.subrange(a.len() as int, b.len() as int);
        assert(b =~= a + rest);
        lemma_encode_concat(a, rest);
    }
    if encode_utf8(a).is_prefix_of(encode_utf8(b)) {
        let k = encode_utf8(a).len() as int;
        encode_utf8_valid_utf8(a);
        encode_utf8_valid_utf8(b);
        assert(encode_utf8(b).subrange(0, k) == encode_utf8(a));
        lemma_valid_prefix_is_boundary(encode_utf8(b), k);
        lemma_boundary_prefix(b, k);
        encode_utf8_decode_utf8(a);
    }
}

} // verus!
