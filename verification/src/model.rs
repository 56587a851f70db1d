//! A rewrite as a mathematical object.
//!
//! A [`Draft`] is what a rewriter stands for: the original text, the text
//! written so far, and whether the written text has left the original. The
//! executable rewriter is specified by the transitions defined here.

use crate::bytes::bytes_at;
use vstd::prelude::*;
use vstd::utf8::*;

verus! {

/// The state of a rewrite: an original text, the output so far, and whether
/// the output has diverged from the original.
pub ghost struct Draft {
    /// The text that is being rewritten.
    pub original: Seq<char>,
    /// Everything written so far, in order.
    pub output: Seq<char>,
    /// Whether some write has failed to repeat the original.
    pub diverged: bool,
}

impl Draft {
    /// The draft of a fresh rewriter: nothing written, nothing diverged.
    pub open spec fn start(original: Seq<char>) -> Draft {
        Draft { original, output: Seq::empty(), diverged: false }
    }

    /// The draft after `unit` has been written: the output is extended by
    /// `unit`, and the draft has diverged if it had before or if the extended
    /// output is no longer a prefix of the original.
    pub open spec fn push(self, unit: Seq<char>) -> Draft {
        Draft {
            original: self.original,
            output: self.output + unit,
            diverged: self.diverged || !(self.output + unit).is_prefix_of(self.original),
        }
    }

    /// The draft after each of `units` has been written in turn.
    pub open spec fn run(self, units: Seq<Seq<char>>) -> Draft
        decreases units.len(),
    {
        if units.len() == 0 {
            self
        } else {
            self.push(units[0]).run(units.drop_first())
        }
    }

    /// A draft that has not diverged has a prefix of the original as its output.
    pub open spec fn follows(self) -> bool {
        !self.diverged ==> self.output.is_prefix_of(self.original)
    }

    /// The flag tells the whole truth: the draft has diverged exactly if its
    /// output is not a prefix of the original.
    pub open spec fn consistent(self) -> bool {
        self.diverged <==> !self.output.is_prefix_of(self.original)
    }

    /// The byte offset into the original up to which it has been matched, as
    /// long as the draft has not diverged: the length of the output in bytes.
    pub open spec fn cursor(self) -> int {
        encode_utf8(self.output).len() as int
    }

    /// The test that a rewriter makes before a write: the draft has not
    /// diverged, and the bytes of `unit` stand in the original at the cursor.
    /// A range that runs past the end of the original does not match.
    pub open spec fn repeats(self, unit: Seq<char>) -> bool {
        !self.diverged && bytes_at(encode_utf8(self.original), self.cursor(), encode_utf8(unit))
    }
}

/// The text that a sequence of written units spells.
pub open spec fn concat(units: Seq<Seq<char>>) -> Seq<char>
    decreases units.len(),
{
    if units.len() == 0 {
        Seq::empty()
    } else {
        units[0] + concat(units.drop_first())
    }
}

} // verus!
