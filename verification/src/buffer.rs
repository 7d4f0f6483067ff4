//! Token sources over segmented text: a `Buffer` yields spans of an
//! underlying text, reads the item a span holds, and can snapshot and
//! restore its position for backtracking.

use vstd::prelude::*;

verus! {

/// A half-open range of offsets into a buffer's text.
pub type Span = (usize, usize);

/// A forward, restorable source of text segments.
pub trait Buffer {
    type Item: PartialEq;

    type State;

    /// The spans this buffer can read; unrestricted unless an implementor
    /// narrows it.
    open spec fn valid_span(&self, span: Span) -> bool {
        true
    }

    /// The next span, advancing the buffer.
    fn next(&mut self) -> Option<Span>;

    /// Reads the item a span holds.
    fn read(&self, span: Span) -> Option<Self::Item>
        requires
            self.valid_span(span),
    ;

    /// A snapshot of the position.
    fn state(&self) -> Self::State;

    /// Returns to a snapshot.
    fn restore(&mut self, state: Self::State);
}

/// A buffer over ASCII text: each span is one byte wide.
pub struct AsciiBuffer<'a> {
    text: &'a [u8],
    state: usize,
}

impl<'a> View for AsciiBuffer<'a> {
    type V = (Seq<u8>, nat);

    closed spec fn view(&self) -> (Seq<u8>, nat) {
        (self.text@, self.state as nat)
    }
}

impl<'a> AsciiBuffer<'a> {
    /// A buffer at the start of the text.
    pub fn new(text: &'a [u8]) -> (r: Self)
        ensures
            r@ == (text@, 0nat),
    {
        AsciiBuffer { text, state: 0 }
    }
}

impl<'a> Buffer for AsciiBuffer<'a> {
    type Item = char;

    type State = usize;

    /// A span is readable when it starts inside the text.
    open spec fn valid_span(&self, span: Span) -> bool {
        span.0 < self@.0.len()
    }

    fn next(&mut self) -> (r: Option<Span>)
        ensures
            old(self)@.1 + 1 < old(self)@.0.len() ==> r == Some(
                ((old(self)@.1) as usize, (old(self)@.1 + 1) as usize),
            ) && final(self)@ == (old(self)@.0, old(self)@.1 + 1),
            old(self)@.1 + 1 >= old(self)@.0.len() ==> r == None::<Span> && final(self)@ == old(
                self,
            )@,
    {
        if self.state < self.text.len() && self.state + 1 < self.text.len() {
            let span = (self.state, self.state + 1);
            self.state = self.state + 1;
            Some(span)
        } else {
            None
        }
    }

    fn read(&self, span: Span) -> (r: Option<char>)
        ensures
            r == Some(self@.0[span.0 as int] as char),
    {
        Some(self.text[span.0] as char)
    }

    fn state(&self) -> (r: usize)
        ensures
            r as nat == self@.1,
    {
        self.state
    }

    fn restore(&mut self, state: usize)
        ensures
            final(self)@ == (old(self)@.0, state as nat),
    {
        self.state = state;
    }
}

} // verus!
