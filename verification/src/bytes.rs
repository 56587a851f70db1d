//! Bounds-checked comparison of byte strings.

use crate::encoding::lemma_encode_single;
use crate::strings::encode_char;
use vstd::prelude::*;
use vstd::utf8::*;

verus! {

/// `a` holds `b` at offset `i`: the range exists in `a` and equals `b` byte for byte.
pub open spec fn bytes_at(a: Seq<u8>, i: int, b: Seq<u8>) -> bool {
    &&& 0 <= i
    &&& i + b.len() <= a.len()
    &&& a.subrange(i, i + b.len()) == b
}

/// Checks that bytes `a` contain bytes `b` at offset `i`.
pub fn is_bytes_at(a: &[u8], i: usize, b: &[u8]) -> (found: bool)
    ensures
        found == bytes_at(a@, i as int, b@),
        found ==> i + b@.len() <= usize::MAX,
{
    let l: usize = b.len();
    if a.len() < i || a.len() - i < l {
        return false;
    }
    let mut k: usize = 0;
    while k < l
        invariant
            l == b@.len(),
            i + l <= a.len(),
            k <= l,
            a@.subrange(i as int, i + k) == b@.subrange(0, k as int),
        decreases l - k,
    {
        if a[i + k] != b[k] {
            assert(a@.subrange(i as int, i + l)[k as int] != b@[k as int]);
            return false;
        }
        assert(a@.subrange(i as int, i + k + 1) =~= a@.subrange(i as int, i + k).push(a@[i + k]));
        assert(b@.subrange(0, k + 1) =~= b@.subrange(0, k as int).push(b@[k as int]));
        k += 1;
    }
    assert(b@.subrange(0, l as int) =~= b@);
    true
}

/// Checks that string slice `s` contains char `c` at byte offset `i`.
pub fn is_char_at(s: &str, i: usize, c: char) -> (found: bool)
    ensures
        found == bytes_at(encode_utf8(s@), i as int, encode_utf8(seq![c])),
        found ==> i + encode_utf8(seq![c]).len() <= usize::MAX,
{
    // Four bytes hold the encoding of any character.
    let mut d = [0u8; 4];
    encode_char(c, &mut d);
    let l: usize = c.len_utf8();
    let d = &d[0..l];
    proof {
        lemma_encode_single(c);
    }
    is_bytes_at(s.as_bytes(), i, d)
}

} // verus!
