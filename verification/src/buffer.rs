//! The rewriter: a text in the making that borrows from its input for as long
//! as it repeats it.

use crate::bytes::{bytes_at, is_bytes_at, is_char_at};
use crate::encoding::{
    lemma_boundary_prefix, lemma_encode_concat, lemma_encode_single, lemma_prefix_chars_iff_bytes,
    lemma_valid_prefix_is_boundary,
};
use crate::laws::lemma_push_by_bytes;
use crate::model::Draft;
use crate::private::{Sealed, WithInfo};
use std::borrow::Cow;
use vstd::prelude::*;
use vstd::std_specs::convert::FromSpecImpl;
use vstd::utf8::*;

verus! {

/// An input that can be rewritten: a text that is borrowed, or one that is
/// either borrowed or owned.
pub trait Rewritable: Sealed {
    /// The kind of data behind the input. Only texts are supported.
    type Ref: ToOwned + WithInfo + ?Sized;

    /// The text that the input holds.
    spec fn text(&self) -> Seq<char>;

    /// The input as a string slice.
    fn as_text(&self) -> (s: &str)
        ensures
            s@ == self.text(),
    ;
}

impl<'a> Sealed for &'a str {

}

impl<'a> Rewritable for &'a str {
    type Ref = str;

    open spec fn text(&self) -> Seq<char> {
        self@
    }

    fn as_text(&self) -> (s: &str) {
        *self
    }
}

impl<'a> Sealed for Cow<'a, str> {

}

impl<'a> Rewritable for Cow<'a, str> {
    type Ref = str;

    open spec fn text(&self) -> Seq<char> {
        self@
    }

    fn as_text(&self) -> (s: &str) {
        match self {
            Cow::Borrowed(b) => *b,
            Cow::Owned(o) => o.as_str(),
        }
    }
}

/// A text in the making that starts out as a prefix of its input and is
/// copied only once it leaves the input.
pub struct Rewrite<T: Rewritable<Ref = str>> {
    /// The text that is rewritten.
    input: T,
    /// The buffer: empty until the first divergence, the whole output after it.
    output: <T::Ref as ToOwned>::Owned,
    /// Whether the buffer holds the output.
    copied: bool,
    /// The cursor: the byte offset up to which the output repeats the input.
    /// It stays where it is once the buffer holds the output.
    info: <T::Ref as WithInfo>::Info,
}

impl<T: Rewritable<Ref = str>> View for Rewrite<T> {
    type V = Draft;

    closed spec fn view(&self) -> Draft {
        Draft {
            original: self.input.text(),
            output: if self.copied {
                self.output@
            } else {
                decode_utf8(encode_utf8(self.input.text()).subrange(0, self.info as int))
            },
            diverged: self.copied,
        }
    }
}

impl<T: Rewritable<Ref = str>> Rewrite<T> {
    /// The cursor stands within the input, on a character boundary, and
    /// until the first copy the buffer is empty.
    #[verifier::type_invariant]
    spec fn inv(&self) -> bool {
        &&& self.info <= encode_utf8(self.input.text()).len()
        &&& is_char_boundary(encode_utf8(self.input.text()), self.info as int)
        &&& !self.copied ==> self.output@ == Seq::<char>::empty()
    }

    /// The input that the rewriter was made from.
    pub closed spec fn input(&self) -> T {
        self.input
    }

    /// The cursor: the byte offset into the input up to which it was matched.
    /// It moves while the rewriter repeats its input and stays where it is
    /// from the first divergence on.
    pub closed spec fn cursor(&self) -> usize {
        self.info
    }

    /// The text in the owned buffer: nothing until the first divergence, the
    /// whole output after it.
    pub closed spec fn buffer(&self) -> Seq<char> {
        self.output@
    }

    /// Shows what holds of every rewriter: the output of one that has not
    /// diverged is a prefix of its input and ends at the cursor, its buffer is
    /// empty, and the cursor stands within the input on a character boundary
    /// whether the rewriter has diverged or not. Nothing is computed.
    pub fn well_formed(&self)
        ensures
            self@.follows(),
            self.cursor() <= encode_utf8(self@.original).len(),
            is_char_boundary(encode_utf8(self@.original), self.cursor() as int),
            !self@.diverged ==> self.cursor() == self@.cursor(),
            !self@.diverged ==> self.buffer() == Seq::<char>::empty(),
            self@.diverged ==> self.buffer() == self@.output,
    {
        proof {
            use_type_invariant(self);
            if !self.copied {
                self.lemma_cursor();
            }
        }
    }

    /// While nothing is copied, the bytes before the cursor are the encoding of the output.
    proof fn lemma_cursor(&self)
        requires
            self.inv(),
            !self.copied,
        ensures
            self@.output.is_prefix_of(self@.original),
            encode_utf8(self@.output) == encode_utf8(self@.original).subrange(0, self.info as int),
            self@.cursor() == self.info,
    {
        lemma_boundary_prefix(self.input.text(), self.info as int);
    }

    /// Where the bytes of `unit` stand in the input at the cursor, the cursor
    /// moved behind them is a character boundary again, and the text before it
    /// is the output extended by `unit`.
    proof fn lemma_step(&self, unit: Seq<char>)
        requires
            self.inv(),
            !self.copied,
            bytes_at(encode_utf8(self.input.text()), self.info as int, encode_utf8(unit)),
        ensures
            !self@.push(unit).diverged,
            is_char_boundary(
                encode_utf8(self.input.text()),
                self.info + encode_utf8(unit).len(),
            ),
            decode_utf8(
                encode_utf8(self.input.text()).subrange(0, self.info + encode_utf8(unit).len()),
            ) == self@.output + unit,
    {
        let next = self@.output + unit;
        self.lemma_cursor();
        lemma_push_by_bytes(self@, unit);
        lemma_encode_concat(self@.output, unit);
        lemma_prefix_chars_iff_bytes(next, self@.original);
        encode_utf8_valid_utf8(self@.original);
        encode_utf8_valid_utf8(next);
        lemma_valid_prefix_is_boundary(encode_utf8(self@.original), encode_utf8(next).len() as int);
        encode_utf8_decode_utf8(next);
    }

    /// Where the bytes of `unit` do not stand in the input at the cursor, or
    /// the buffer is in use already, writing `unit` leaves the draft diverged.
    proof fn lemma_leave(&self, unit: Seq<char>)
        requires
            self.inv(),
            self.copied || !bytes_at(
                encode_utf8(self.input.text()),
                self.info as int,
                encode_utf8(unit),
            ),
        ensures
            self@.push(unit).diverged,
    {
        if !self.copied {
            self.lemma_cursor();
            lemma_push_by_bytes(self@, unit);
        }
    }

    /// Makes a rewriter for `input` with nothing written yet: the cursor at
    /// the start, the buffer empty.
    pub fn new(input: T) -> (r: Self)
        ensures
            r@ == Draft::start(input.text()),
            r.input() == input,
            r.cursor() == 0,
            r.buffer() == Seq::<char>::empty(),
    {
        proof {
            let bytes = encode_utf8(input.text());
            encode_utf8_valid_utf8(input.text());
            is_char_boundary_start_end_of_seq(bytes);
            assert(bytes.subrange(0, 0) =~= Seq::<u8>::empty());
            assert(decode_utf8(Seq::<u8>::empty()) =~= Seq::<char>::empty());
        }
        Self { input, output: Default::default(), copied: false, info: Default::default() }
    }

    /// Takes the buffer out and leaves an empty one in its place. The buffer
    /// grows outside the rewriter and is put back afterwards, so that the
    /// rewriter is well-formed at every moment, also if an append unwinds.
    fn take_output(&mut self) -> (output: String)
        ensures
            output@ == old(self).output@,
            final(self).output@ == Seq::<char>::empty(),
            final(self).input == old(self).input,
            final(self).copied == old(self).copied,
            final(self).info == old(self).info,
    {
        proof {
            use_type_invariant(&*self);
        }
        let mut output = String::new();
        core::mem::swap(&mut self.output, &mut output);
        output
    }

    /// Makes the buffer hold the output so far, unless it already does. The
    /// cursor stays where it is.
    fn copy(&mut self)
        ensures
            final(self)@ == (Draft { diverged: true, ..old(self)@ }),
            final(self).input() == old(self).input(),
            final(self).cursor() == old(self).cursor(),
            final(self).buffer() == old(self)@.output,
    {
        if !self.copied {
            proof {
                use_type_invariant(&*self);
                encode_utf8_valid_utf8(self.input.text());
            }
            let mut output = self.take_output();
            let head = self.input.as_text().split_at(self.info).0;
            output.push_str(head);
            proof {
                encode_utf8_decode_utf8(head@);
            }
            self.copied = true;
            self.output = output;
        }
    }

    /// Writes the character `c`.
    ///
    /// The rewriter stays on its input if it has not left it before and the
    /// bytes of `c` stand in the input at the cursor: then the cursor moves
    /// behind them and the buffer stays empty. Else it has diverged: the
    /// cursor stays where it was and the buffer holds the whole output. A
    /// rewriter that has diverged never returns to its input.
    pub fn push(&mut self, c: char)
        ensures
            final(self)@ == old(self)@.push(seq![c]),
            final(self).input() == old(self).input(),
            old(self)@.diverged ==> final(self)@.diverged,
            final(self)@.diverged ==> final(self).cursor() == old(self).cursor(),
            !final(self)@.diverged ==> final(self).cursor() == old(self).cursor() + encode_utf8(
                seq![c],
            ).len(),
            final(self)@.diverged ==> final(self).buffer() == final(self)@.output,
            !final(self)@.diverged ==> final(self).buffer() == Seq::<char>::empty(),
    {
        proof {
            use_type_invariant(&*self);
        }
        if !self.copied && is_char_at(self.input.as_text(), self.info, c) {
            proof {
                self.lemma_step(seq![c]);
                lemma_encode_single(c);
            }
            self.info += c.len_utf8();
        } else {
            proof {
                lemma_encode_single(c);
                self.lemma_leave(seq![c]);
            }
            self.copy();
            let mut output = self.take_output();
            output.push(c);
            self.output = output;
            assert(old(self)@.output.push(c) =~= old(self)@.output + seq![c]);
        }
    }

    /// Writes the string slice `s`.
    ///
    /// The rewriter stays on its input if it has not left it before and the
    /// bytes of `s` stand in the input at the cursor: then the cursor moves
    /// behind them and the buffer stays empty. Else it has diverged: the
    /// cursor stays where it was and the buffer holds the whole output. A
    /// rewriter that has diverged never returns to its input.
    pub fn push_str(&mut self, s: &str)
        ensures
            final(self)@ == old(self)@.push(s@),
            final(self).input() == old(self).input(),
            old(self)@.diverged ==> final(self)@.diverged,
            final(self)@.diverged ==> final(self).cursor() == old(self).cursor(),
            !final(self)@.diverged ==> final(self).cursor() == old(self).cursor() + encode_utf8(
                s@,
            ).len(),
            final(self)@.diverged ==> final(self).buffer() == final(self)@.output,
            !final(self)@.diverged ==> final(self).buffer() == Seq::<char>::empty(),
    {
        proof {
            use_type_invariant(&*self);
        }
        if !self.copied && is_bytes_at(self.input.as_text().as_bytes(), self.info, s.as_bytes()) {
            proof {
                self.lemma_step(s@);
            }
            self.info += s.len();
        } else {
            proof {
                self.lemma_leave(s@);
            }
            self.copy();
            let mut output = self.take_output();
            output.push_str(s);
            self.output = output;
        }
    }
}

/// Finishes a rewrite of a borrowed text.
///
/// The result holds the output. It borrows from the input if the rewrite has
/// not diverged, and owns its text otherwise.
impl<'a> From<Rewrite<&'a str>> for Cow<'a, str> {
    fn from(this: Rewrite<&'a str>) -> (r: Self)
        ensures
            r@ == this@.output,
            r is Borrowed <==> !this@.diverged,
            !this@.diverged ==> r@.is_prefix_of(this@.original),
    {
        proof {
            use_type_invariant(&this);
            encode_utf8_valid_utf8(this.input.text());
            if !this.copied {
                this.lemma_cursor();
            }
        }
        if this.copied {
            Cow::Owned(this.output)
        } else {
            let head = this.input.split_at(this.info).0;
            proof {
                encode_utf8_decode_utf8(head@);
            }
            Cow::Borrowed(head)
        }
    }
}

/// No closed form is given for the conversion: its result is pinned down by
/// what `from` ensures.
impl<'a> FromSpecImpl<Rewrite<&'a str>> for Cow<'a, str> {
    open spec fn obeys_from_spec() -> bool {
        false
    }

    open spec fn from_spec(this: Rewrite<&'a str>) -> Self {
        arbitrary()
    }
}

/// Finishes a rewrite of a text that is borrowed or owned.
///
/// The result holds the output. It borrows only if the input was borrowed and
/// the rewrite has not diverged; an owned input that the rewrite has not left
/// is cut to the output and handed back.
impl<'a> From<Rewrite<Cow<'a, str>>> for Cow<'a, str> {
    fn from(this: Rewrite<Cow<'a, str>>) -> (r: Self)
        ensures
            r@ == this@.output,
            r is Borrowed <==> !this@.diverged && this.input() is Borrowed,
            !this@.diverged ==> r@.is_prefix_of(this@.original),
    {
        proof {
            use_type_invariant(&this);
            encode_utf8_valid_utf8(this.input.text());
            if !this.copied {
                this.lemma_cursor();
            }
        }
        if this.copied {
            Cow::Owned(this.output)
        } else {
            match this.input {
                Cow::Borrowed(s) => {
                    let head = s.split_at(this.info).0;
                    proof {
                        encode_utf8_decode_utf8(head@);
                    }
                    Cow::Borrowed(head)
                },
                Cow::Owned(mut s) => {
                    let ghost whole = s@;
                    s.truncate(this.info);
                    proof {
                        encode_utf8_decode_utf8(s@);
                        assert(encode_utf8(whole).subrange(0, encode_utf8(whole).len() as int)
                            =~= encode_utf8(whole));
                    }
                    Cow::Owned(s)
                },
            }
        }
    }
}

/// No closed form is given for the conversion: its result is pinned down by
/// what `from` ensures.
impl<'a> FromSpecImpl<Rewrite<Cow<'a, str>>> for Cow<'a, str> {
    open spec fn obeys_from_spec() -> bool {
        false
    }

    open spec fn from_spec(this: Rewrite<Cow<'a, str>>) -> Self {
        arbitrary()
    }
}

} // verus!
