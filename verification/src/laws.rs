//! What holds of every rewrite.
//!
//! The laws speak of [`Draft`]s, which is what the executable rewriter is
//! specified by: a rewriter made by `new` has the draft `Draft::start`, and
//! each `push` or `push_str` moves it on by `Draft::push`.

use crate::encoding::{lemma_encode_concat, lemma_prefix_chars_iff_bytes};
use crate::model::{concat, Draft};
use vstd::prelude::*;
use vstd::utf8::*;

verus! {

/// `written` leaves `original` at byte offset `d`: the two agree on the `d`
/// bytes before it, and at `d` the written bytes go on with a byte that the
/// original does not have there.
pub open spec fn differs_at(written: Seq<u8>, original: Seq<u8>, d: int) -> bool {
    &&& 0 <= d < written.len()
    &&& d <= original.len()
    &&& written.subrange(0, d) == original.subrange(0, d)
    &&& (d == original.len() || written[d] != original[d])
}

/// What begins a prefix of a text is itself a prefix of that text.
pub proof fn lemma_prefix_of_prefix(a: Seq<char>, b: Seq<char>, whole: Seq<char>)
    requires
        (a + b).is_prefix_of(whole),
    ensures
        a.is_prefix_of(whole),
{
    assert(a =~= (a + b).subrange(0, a.len() as int));
}

/// The byte comparison decides: where the output of a draft that has not
/// diverged is a prefix of the original, a write leaves the draft on the
/// original exactly if the bytes of the unit stand in the original at the
/// cursor. No other reading of the texts, such as one that takes equivalent
/// sequences of characters for equal, enters into it.
pub proof fn lemma_push_by_bytes(draft: Draft, unit: Seq<char>)
    requires
        draft.follows(),
    ensures
        draft.push(unit).diverged == !draft.repeats(unit),
{
    if !draft.diverged {
        let whole = draft.original;
        let next = draft.output + unit;
        let seen = encode_utf8(draft.output);
        let all = encode_utf8(whole);
        let more = encode_utf8(unit);
        let at = seen.len() as int;
        let end = at + more.len();
        lemma_prefix_chars_iff_bytes(draft.output, whole);
        lemma_prefix_chars_iff_bytes(next, whole);
        lemma_encode_concat(draft.output, unit);
        if draft.repeats(unit) {
            assert(seen + more =~= all.subrange(0, end));
        }
        if (seen + more).is_prefix_of(all) {
            assert forall|i: int| 0 <= i < more.len() implies all.subrange(at, end)[i]
                == more[i] by {
                assert(all.subrange(0, end)[at + i] == (seen + more)[at + i]);
            }
            assert(all.subrange(at, end) =~= more);
        }
    }
}

/// A write keeps a consistent draft consistent: afterwards the draft has
/// diverged exactly if the extended output is no prefix of the original.
pub proof fn lemma_push_consistent(draft: Draft, unit: Seq<char>)
    requires
        draft.consistent(),
    ensures
        draft.push(unit).consistent(),
{
    if (draft.output + unit).is_prefix_of(draft.original) {
        lemma_prefix_of_prefix(draft.output, unit, draft.original);
    }
}

/// A run of writes from a consistent draft ends in the draft whose output is
/// extended by everything written, and which has diverged exactly if that
/// output is no prefix of the original.
pub proof fn lemma_run(draft: Draft, units: Seq<Seq<char>>)
    requires
        draft.consistent(),
    ensures
        draft.run(units) == (Draft {
            original: draft.original,
            output: draft.output + concat(units),
            diverged: !(draft.output + concat(units)).is_prefix_of(draft.original),
        }),
    decreases units.len(),
{
    if units.len() == 0 {
        assert(draft.output + concat(units) =~= draft.output);
    } else {
        lemma_push_consistent(draft, units[0]);
        lemma_run(draft.push(units[0]), units.drop_first());
        assert(draft.output + units[0] + concat(units.drop_first()) =~= draft.output + concat(
            units,
        ));
    }
}

/// Writes that spell a prefix of the original never diverge, neither at the
/// end nor after the first `n` of them, and the output is that prefix: such a
/// rewrite ends borrowing.
pub proof fn lemma_borrow_preservation(original: Seq<char>, units: Seq<Seq<char>>, n: int)
    requires
        concat(units).is_prefix_of(original),
        0 <= n <= units.len(),
    ensures
        !Draft::start(original).run(units).diverged,
        Draft::start(original).run(units).output == original.subrange(
            0,
            concat(units).len() as int,
        ),
        !Draft::start(original).run(units.take(n)).diverged,
{
    let start = Draft::start(original);
    lemma_run(start, units);
    lemma_run(start, units.take(n));
    assert(start.output + concat(units) =~= concat(units));
    assert(start.output + concat(units.take(n)) =~= concat(units.take(n)));
    lemma_concat_split(units, n);
    lemma_prefix_of_prefix(concat(units.take(n)), concat(units.skip(n)), original);
}

/// The text of a sequence of units is the text of its first `n` units
/// followed by the text of the others.
pub proof fn lemma_concat_split(units: Seq<Seq<char>>, n: int)
    requires
        0 <= n <= units.len(),
    ensures
        concat(units) == concat(units.take(n)) + concat(units.skip(n)),
    decreases n,
{
    if n == 0 {
        assert(units.skip(0) =~= units);
        assert(concat(units.take(0)) + concat(units.skip(0)) =~= concat(units));
    } else {
        lemma_concat_split(units.drop_first(), n - 1);
        assert(units.take(n).drop_first() =~= units.drop_first().take(n - 1));
        assert(units.skip(n) =~= units.drop_first().skip(n - 1));
        assert(concat(units) =~= concat(units.take(n)) + concat(units.skip(n)));
    }
}

/// Writes that spell the whole original do not diverge, the output is the
/// original, and the cursor stands at its end: what such a rewrite borrows is
/// the whole input.
pub proof fn lemma_exact_match(original: Seq<char>, units: Seq<Seq<char>>)
    requires
        concat(units) == original,
    ensures
        !Draft::start(original).run(units).diverged,
        Draft::start(original).run(units).output == original,
        Draft::start(original).run(units).cursor() == encode_utf8(original).len(),
{
    let start = Draft::start(original);
    lemma_run(start, units);
    assert(start.output + concat(units) =~= original);
    assert(original =~= original.subrange(0, original.len() as int));
}

/// Writes whose bytes leave the original at offset `d` diverge. The output is
/// everything written, and its first `d` bytes are those of the original.
pub proof fn lemma_divergence(original: Seq<char>, units: Seq<Seq<char>>, d: int)
    requires
        differs_at(encode_utf8(concat(units)), encode_utf8(original), d),
    ensures
        Draft::start(original).run(units).diverged,
        Draft::start(original).run(units).output == concat(units),
        encode_utf8(Draft::start(original).run(units).output).subrange(0, d) == encode_utf8(
            original,
        ).subrange(0, d),
{
    let start = Draft::start(original);
    lemma_run(start, units);
    assert(start.output + concat(units) =~= concat(units));
    lemma_differs_iff_not_prefix(concat(units), original);
}

/// A text is no prefix of another exactly if its bytes leave the other's at
/// some offset.
pub proof fn lemma_differs_iff_not_prefix(written: Seq<char>, original: Seq<char>)
    ensures
        !written.is_prefix_of(original) <==> exists|d: int|
            differs_at(encode_utf8(written), encode_utf8(original), d),
{
    let w = encode_utf8(written);
    let o = encode_utf8(original);
    lemma_prefix_chars_iff_bytes(written, original);
    if exists|d: int| differs_at(w, o, d) {
        let d = choose|d: int| differs_at(w, o, d);
        if w.is_prefix_of(o) {
            assert(w[d] == o.subrange(0, w.len() as int)[d]);
        }
    }
    if !w.is_prefix_of(o) {
        assert(w.subrange(0, 0) =~= o.subrange(0, 0));
        lemma_first_difference(w, o, 0);
    }
}

/// Two byte strings that agree before `from`, the first of which is no prefix
/// of the second, differ at some offset.
proof fn lemma_first_difference(w: Seq<u8>, o: Seq<u8>, from: int)
    requires
        !w.is_prefix_of(o),
        0 <= from <= w.len(),
        from <= o.len(),
        w.subrange(0, from) == o.subrange(0, from),
    ensures
        exists|d: int| differs_at(w, o, d),
    decreases w.len() - from,
{
    if from == w.len() {
        assert(w =~= w.subrange(0, from));
        assert(false);
    } else if from == o.len() || w[from] != o[from] {
        assert(differs_at(w, o, from));
    } else {
        assert(w.subrange(0, from + 1) =~= w.subrange(0, from).push(w[from]));
        assert(o.subrange(0, from + 1) =~= o.subrange(0, from).push(o[from]));
        lemma_first_difference(w, o, from + 1);
    }
}

/// A draft that has diverged stays diverged whatever is written, also where
/// later writes repeat what the original holds at their place.
pub proof fn lemma_monotonic(draft: Draft, units: Seq<Seq<char>>)
    requires
        draft.diverged,
    ensures
        draft.run(units).diverged,
    decreases units.len(),
{
    if units.len() != 0 {
        lemma_monotonic(draft.push(units[0]), units.drop_first());
    }
}

/// The grouping of writes does not matter: two runs that spell the same text
/// end in the same draft, whether it was written char by char or in slices.
pub proof fn lemma_grouping(original: Seq<char>, first: Seq<Seq<char>>, second: Seq<Seq<char>>)
    requires
        concat(first) == concat(second),
    ensures
        Draft::start(original).run(first) == Draft::start(original).run(second),
{
    lemma_run(Draft::start(original), first);
    lemma_run(Draft::start(original), second);
}

} // verus!
