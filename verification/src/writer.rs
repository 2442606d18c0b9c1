//! A writer wrapper that strips ANSI escape sequences on the fly.

use vstd::prelude::*;

use crate::parser::{run_out, run_state, State};
use crate::stream::{concat_all, content_runs, runs_lie_in, StripSlices, StripStream};

verus! {

/// A writer wrapper that strips ANSI escape sequences on the fly: each
/// write goes through [`StripWriter::strip_slices`] and only the content
/// slices reach the inner writer. The `io::Write` glue that forwards them
/// lives with the program that writes.
pub struct StripWriter<W> {
    inner: W,
    stream: StripStream,
}

impl<W> StripWriter<W> {
    /// The parser state carried between writes.
    pub closed spec fn state(&self) -> State {
        self.stream@
    }

    /// The wrapped writer.
    pub closed spec fn inner(&self) -> W {
        self.inner
    }

    /// Wrap a writer with ANSI stripping.
    pub fn new(inner: W) -> (w: Self)
        ensures
            w.state() == State::Ground,
            w.inner() == inner,
    {
        StripWriter { inner, stream: StripStream::new() }
    }

    /// Reset the parser to the ground state, discarding any incomplete
    /// escape sequence.
    pub fn reset(&mut self)
        ensures
            final(self).state() == State::Ground,
            final(self).inner() == old(self).inner(),
    {
        self.stream.reset();
    }

    /// Consume the writer, returning the inner `W`. Any incomplete escape
    /// sequence is silently discarded.
    pub fn into_inner(self) -> (w: W)
        ensures
            w == self.inner(),
    {
        self.inner
    }

    /// Borrow the inner writer.
    pub fn get_ref(&self) -> (w: &W)
        ensures
            *w == self.inner(),
    {
        &self.inner
    }

    /// Strip the bytes of one write: the content slices to hand to the
    /// inner writer, in order. Escape sequences spanning several writes are
    /// handled by the parser state carried over.
    pub fn strip_slices<'a>(&mut self, buf: &'a [u8]) -> (r: StripSlices<'a>)
        ensures
            r.wf(),
            r.fresh(),
            concat_all(r.remaining()) == run_out(old(self).state(), buf@),
            runs_lie_in(r.remaining(), content_runs(old(self).state(), buf@, buf@.len() as int), buf@),
            final(self).state() == run_state(old(self).state(), buf@),
            final(self).inner() == old(self).inner(),
    {
        self.stream.strip_slices(buf)
    }

    /// Mutably borrow the inner writer.
    pub fn get_mut(&mut self) -> (w: &mut W)
        ensures
            *w == old(self).inner(),
            final(self).inner() == *final(w),
            final(self).state() == old(self).state(),
    {
        &mut self.inner
    }
}

} // verus!
