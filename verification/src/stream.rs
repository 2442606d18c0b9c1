//! Streaming stripping of chunked input: one byte of parser state carries
//! across chunk boundaries.

use vstd::prelude::*;

use crate::parser::{
    Action, ESC, Parser, State, lemma_emit_only_from_ground, lemma_run_concat, lemma_run_push,
    run_out, run_state, step,
};
use crate::scan::{append_slice, next_esc};
use crate::strip::spec_strip;

verus! {

/// The concatenation of a sequence of byte strings.
pub open spec fn concat_all(parts: Seq<Seq<u8>>) -> Seq<u8>
    decreases parts.len(),
{
    if parts.len() == 0 {
        Seq::empty()
    } else {
        concat_all(parts.drop_last()) + parts.last()
    }
}

/// The views of a sequence of borrowed slices.
pub open spec fn slice_views<'a>(slices: Seq<&'a [u8]>) -> Seq<Seq<u8>> {
    slices.map_values(|s: &'a [u8]| s@)
}

pub(crate) proof fn lemma_concat_push(parts: Seq<Seq<u8>>, x: Seq<u8>)
    ensures
        concat_all(parts.push(x)) == concat_all(parts) + x,
{
    assert(parts.push(x).drop_last() =~= parts);
}

pub(crate) proof fn lemma_views_push<'a>(slices: Seq<&'a [u8]>, s: &'a [u8])
    ensures
        slice_views(slices.push(s)) == slice_views(slices).push(s@),
{
    assert(slice_views(slices.push(s)) =~= slice_views(slices).push(s@));
}

// ── Slice boundaries ────────────────────────────────────────────────
/// Whether the last range ends at `i`.
pub open spec fn ends_at(rs: Seq<(int, int)>, i: int) -> bool {
    rs.len() > 0 && rs.last().1 == i
}

/// Content byte `i` added to the ranges: it extends a range that ends just
/// before it, or starts a new one.
pub open spec fn add_byte(rs: Seq<(int, int)>, i: int) -> Seq<(int, int)> {
    if ends_at(rs, i) {
        rs.drop_last().push((rs.last().0, i + 1))
    } else {
        rs.push((i, i + 1))
    }
}

/// The maximal runs of content bytes in `input[..j]`, stripped from parser
/// state `s`, as ranges `(a, b)` of the input.
#[verifier::opaque]
pub open spec fn content_runs(s: State, input: Seq<u8>, j: int) -> Seq<(int, int)>
    decreases j,
{
    if j <= 0 {
        Seq::empty()
    } else {
        let rs = content_runs(s, input, j - 1);
        if step(run_state(s, input.take(j - 1)), input[j - 1]).1 == Action::Emit {
            add_byte(rs, j - 1)
        } else {
            rs
        }
    }
}

/// Whether slices are, one by one, the input ranges `rs`.
pub open spec fn runs_lie_in(ss: Seq<Seq<u8>>, rs: Seq<(int, int)>, input: Seq<u8>) -> bool {
    &&& ss.len() == rs.len()
    &&& forall|i: int|
        0 <= i < ss.len() ==> 0 <= (#[trigger] rs[i]).0 < rs[i].1 <= input.len() && ss[i]
            == input.subrange(rs[i].0, rs[i].1)
}

proof fn lemma_content_runs_empty(s: State, input: Seq<u8>)
    ensures
        content_runs(s, input, 0) == Seq::<(int, int)>::empty(),
{
    reveal_with_fuel(content_runs, 1);
}

/// A byte that is not content adds no range.
proof fn lemma_content_runs_skip(s: State, input: Seq<u8>, j: int)
    requires
        0 <= j < input.len(),
        step(run_state(s, input.take(j)), input[j]).1 != Action::Emit,
    ensures
        content_runs(s, input, j + 1) == content_runs(s, input, j),
{
    reveal_with_fuel(content_runs, 1);
}

/// The last range of `input[..j]` ends by `j`.
proof fn lemma_content_runs_last_end(s: State, input: Seq<u8>, j: int)
    ensures
        content_runs(s, input, j).len() > 0 ==> content_runs(s, input, j).last().1 <= j,
    decreases j,
{
    reveal_with_fuel(content_runs, 1);
    if j > 0 {
        lemma_content_runs_last_end(s, input, j - 1);
    }
}

/// From the ground state, bytes without ESC after a range that does not
/// end where they start make one new range.
proof fn lemma_content_runs_stretch(s: State, input: Seq<u8>, pos: int, next: int)
    requires
        0 <= pos < next <= input.len(),
        run_state(s, input.take(pos)) == State::Ground,
        forall|k: int| pos <= k < next ==> input[k] != ESC,
        !ends_at(content_runs(s, input, pos), pos),
    ensures
        content_runs(s, input, next) == content_runs(s, input, pos).push((pos, next)),
        run_state(s, input.take(next)) == State::Ground,
    decreases next - pos,
{
    reveal_with_fuel(content_runs, 1);
    let rs0 = content_runs(s, input, pos);
    if next - 1 > pos {
        lemma_content_runs_stretch(s, input, pos, next - 1);
    }
    let b = input[next - 1];
    assert(b != ESC);
    lemma_run_push(s, input.take(next - 1), b);
    assert(input.take(next - 1).push(b) =~= input.take(next));
    let rs = content_runs(s, input, next - 1);
    if next - 1 > pos {
        assert(rs.drop_last() =~= rs0);
        assert(add_byte(rs, next - 1) =~= rs0.push((pos, next)));
    } else {
        assert(add_byte(rs, next - 1) =~= rs0.push((pos, next)));
    }
}

proof fn lemma_runs_lie_in_push(ss: Seq<Seq<u8>>, rs: Seq<(int, int)>, input: Seq<u8>, a: int, b: int)
    requires
        runs_lie_in(ss, rs, input),
        0 <= a < b <= input.len(),
    ensures
        runs_lie_in(ss.push(input.subrange(a, b)), rs.push((a, b)), input),
{
    let ss2 = ss.push(input.subrange(a, b));
    let rs2 = rs.push((a, b));
    assert forall|i: int| 0 <= i < ss2.len() implies 0 <= (#[trigger] rs2[i]).0 < rs2[i].1
        <= input.len() && ss2[i] == input.subrange(rs2[i].0, rs2[i].1) by {
        if i < ss.len() {
            assert(ss2[i] == ss[i]);
            assert(rs2[i] == rs[i]);
        }
    }
}

/// Borrowed content slices of one chunk, in order.
pub struct StripSlices<'a> {
    slices: Vec<&'a [u8]>,
    next: usize,
}

impl<'a> StripSlices<'a> {
    /// The slices not yet handed out, as byte sequences.
    pub closed spec fn remaining(&self) -> Seq<Seq<u8>> {
        slice_views(self.slices@).skip(self.next as int)
    }

    /// No slice has been handed out yet.
    pub closed spec fn fresh(&self) -> bool {
        self.next == 0
    }

    /// Well-formedness: the cursor never passes the end.
    pub closed spec fn wf(&self) -> bool {
        self.next <= self.slices@.len()
    }

    /// Hands out the next content slice, if any.
    pub fn next(&mut self) -> (r: Option<&'a [u8]>)
        requires
            old(self).wf(),
        ensures
            final(self).wf(),
            old(self).remaining().len() == 0 ==> r is None && final(self).remaining() == old(
                self,
            ).remaining(),
            old(self).remaining().len() > 0 ==> (r matches Some(s) && s@ == old(self).remaining()[0]
                && final(self).remaining() == old(self).remaining().drop_first()),
    {
        if self.next < self.slices.len() {
            let s = self.slices[self.next];
            proof {
                assert(slice_views(self.slices@).skip(self.next as int)[0] == s@);
                assert(slice_views(self.slices@).skip(self.next + 1) =~= slice_views(
                    self.slices@,
                ).skip(self.next as int).drop_first());
            }
            self.next = self.next + 1;
            Some(s)
        } else {
            None
        }
    }
}

/// Stateful streaming ANSI stripper for chunked input.
///
/// Escape sequences may span chunk boundaries. The parser state carries
/// across calls. No pending buffer — incomplete escapes are skipped, never
/// retroactively emitted.
#[derive(Copy, Clone, Debug, PartialEq, Eq, Structural)]
pub struct StripStream {
    parser: Parser,
}

impl View for StripStream {
    type V = State;

    closed spec fn view(&self) -> State {
        self.parser@
    }
}

impl StripStream {
    /// Create a new streaming stripper.
    pub fn new() -> (s: Self)
        ensures
            s@ == State::Ground,
    {
        StripStream { parser: Parser::new() }
    }

    /// Reset the parser to ground state.
    pub fn reset(&mut self)
        ensures
            final(self)@ == State::Ground,
    {
        self.parser.reset();
    }

    /// Discard any incomplete escape at stream end.
    pub fn finish(&mut self)
        ensures
            final(self)@ == State::Ground,
    {
        self.parser.reset();
    }

    /// Returns `true` if the parser is in the ground state.
    pub fn is_ground(&self) -> (b: bool)
        ensures
            b == (self@ == State::Ground),
    {
        self.parser.is_ground()
    }

    /// Strip a chunk, yielding borrowed slices of content bytes.
    ///
    /// Concatenating all yielded slices across all calls produces the same
    /// result as [`strip`](crate::strip) on the full concatenated input.
    pub fn strip_slices<'a>(&mut self, input: &'a [u8]) -> (r: StripSlices<'a>)
        ensures
            r.wf(),
            r.fresh(),
            concat_all(r.remaining()) == run_out(old(self)@, input@),
            runs_lie_in(r.remaining(), content_runs(old(self)@, input@, input@.len() as int), input@),
            final(self)@ == run_state(old(self)@, input@),
    {
        let ghost st0 = self.parser@;
        let len = input.len();
        let mut slices: Vec<&'a [u8]> = Vec::new();
        let mut pos: usize = 0;
        proof {
            assert(input@.take(0) =~= Seq::<u8>::empty());
            lemma_content_runs_empty(st0, input@);
        }
        // Phase 1: drain a mid-escape left over from the previous chunk.
        if !self.parser.is_ground() {
            while pos < len
                invariant_except_break
                    pos < len ==> self.parser@ != State::Ground,
                invariant
                    len == input@.len(),
                    pos <= len,
                    self.parser@ == run_state(st0, input@.take(pos as int)),
                    run_out(st0, input@.take(pos as int)) == Seq::<u8>::empty(),
                    content_runs(st0, input@, pos as int) == Seq::<(int, int)>::empty(),
                ensures
                    pos <= len,
                    self.parser@ == run_state(st0, input@.take(pos as int)),
                    run_out(st0, input@.take(pos as int)) == Seq::<u8>::empty(),
                    content_runs(st0, input@, pos as int) == Seq::<(int, int)>::empty(),
                    pos < len ==> self.parser@ == State::Ground,
                decreases len - pos,
            {
                let b = input[pos];
                proof {
                    lemma_emit_only_from_ground(self.parser@, b);
                    lemma_content_runs_skip(st0, input@, pos as int);
                    lemma_run_push(st0, input@.take(pos as int), b);
                    assert(input@.take(pos as int).push(b) =~= input@.take(pos + 1));
                    assert(Seq::<u8>::empty() + Seq::<u8>::empty() =~= Seq::<u8>::empty());
                }
                let action = self.parser.feed(b);
                pos += 1;
                if self.parser.is_ground() {
                    break;
                }
            }
        }
        proof {
            assert(slice_views(slices@) =~= Seq::<Seq<u8>>::empty());
        }
        // Phase 2: content runs up to each ESC, escapes fed until ground.
        while pos < len
            invariant
                len == input@.len(),
                pos <= len,
                self.parser@ == run_state(st0, input@.take(pos as int)),
                pos < len ==> self.parser@ == State::Ground,
                concat_all(slice_views(slices@)) == run_out(st0, input@.take(pos as int)),
                runs_lie_in(slice_views(slices@), content_runs(st0, input@, pos as int), input@),
                pos < len ==> !ends_at(content_runs(st0, input@, pos as int), pos as int),
            decreases len - pos,
        {
            let next = next_esc(input, pos);
            if next > pos {
                let slice = vstd::slice::slice_subrange(input, pos, next);
                proof {
                    assert forall|k: int| pos <= k < next implies input@[k] != ESC by {
                        assert(input@.subrange(pos as int, next as int)[k - pos] == input@[k]);
                    }
                    lemma_content_runs_stretch(st0, input@, pos as int, next as int);
                    lemma_runs_lie_in_push(
                        slice_views(slices@),
                        content_runs(st0, input@, pos as int),
                        input@,
                        pos as int,
                        next as int,
                    );
                    crate::parser::lemma_ground_no_esc(slice@);
                    lemma_run_concat(st0, input@.take(pos as int), slice@);
                    assert(input@.take(pos as int) + slice@ =~= input@.take(next as int));
                    lemma_views_push(slices@, slice);
                    lemma_concat_push(slice_views(slices@), slice@);
                }
                slices.push(slice);
                pos = next;
            }
            if pos < len {
                // ESC at `pos`: feed through the parser until ground.
                let b = input[pos];
                let ghost esc = pos as int;
                proof {
                    lemma_run_push(st0, input@.take(pos as int), b);
                    assert(input@.take(pos as int).push(b) =~= input@.take(pos + 1));
                    assert(run_out(st0, input@.take(pos as int)) + Seq::<u8>::empty() =~= run_out(
                        st0,
                        input@.take(pos as int),
                    ));
                    lemma_content_runs_skip(st0, input@, pos as int);
                    lemma_content_runs_last_end(st0, input@, pos as int);
                }
                let action = self.parser.feed(b);
                pos += 1;
                let ghost start = pos;
                while pos < len
                    invariant
                        start <= pos,
                        start == esc + 1,
                        len == input@.len(),
                        pos <= len,
                        self.parser@ == run_state(st0, input@.take(pos as int)),
                        concat_all(slice_views(slices@)) == run_out(st0, input@.take(pos as int)),
                        content_runs(st0, input@, pos as int) == content_runs(st0, input@, esc),
                        content_runs(st0, input@, esc).len() > 0 ==> content_runs(st0, input@, esc).last().1
                            <= esc,
                        runs_lie_in(slice_views(slices@), content_runs(st0, input@, pos as int), input@),
                    ensures
                        start <= pos <= len,
                        self.parser@ == run_state(st0, input@.take(pos as int)),
                        concat_all(slice_views(slices@)) == run_out(st0, input@.take(pos as int)),
                        pos < len ==> self.parser@ == State::Ground,
                        runs_lie_in(slice_views(slices@), content_runs(st0, input@, pos as int), input@),
                        pos < len ==> !ends_at(content_runs(st0, input@, pos as int), pos as int),
                    decreases len - pos,
                {
                    if self.parser.is_ground() {
                        break;
                    }
                    let b = input[pos];
                    proof {
                        lemma_emit_only_from_ground(self.parser@, b);
                        lemma_content_runs_skip(st0, input@, pos as int);
                        lemma_run_push(st0, input@.take(pos as int), b);
                        assert(input@.take(pos as int).push(b) =~= input@.take(pos + 1));
                        assert(run_out(st0, input@.take(pos as int)) + Seq::<u8>::empty()
                            =~= run_out(st0, input@.take(pos as int)));
                    }
                    let action = self.parser.feed(b);
                    pos += 1;
                }
            }
        }
        proof {
            assert(input@.take(len as int) =~= input@);
            assert(slice_views(slices@).skip(0) =~= slice_views(slices@));
        }
        StripSlices { slices, next: 0 }
    }

    /// Strip a chunk, appending content bytes to `out`.
    pub fn push(&mut self, input: &[u8], out: &mut Vec<u8>)
        ensures
            final(out)@ == old(out)@ + run_out(old(self)@, input@),
            final(self)@ == run_state(old(self)@, input@),
    {
        let slices = self.strip_slices(input);
        let ghost views = slice_views(slices.slices@);
        proof {
            assert(views.skip(0) =~= views);
        }
        let mut i: usize = 0;
        while i < slices.slices.len()
            invariant
                i <= slices.slices@.len(),
                views == slice_views(slices.slices@),
                views.len() == slices.slices@.len(),
                concat_all(views) == run_out(old(self)@, input@),
                out@ == old(out)@ + concat_all(views.take(i as int)),
            decreases slices.slices@.len() - i,
        {
            let slice = slices.slices[i];
            proof {
                assert(views.take(i + 1) =~= views.take(i as int).push(slice@));
                lemma_concat_push(views.take(i as int), slice@);
            }
            append_slice(out, slice);
            i += 1;
        }
        proof {
            assert(views.take(i as int) =~= views);
        }
    }
}

impl Default for StripStream {
    fn default() -> (s: Self)
        ensures
            s@ == State::Ground,
    {
        Self::new()
    }
}

/// Streaming law: stripping a stream chunk by chunk, with the parser state
/// carried across the boundary, yields exactly what stripping the whole
/// concatenated input yields.
pub proof fn law_chunked_strip_matches_whole(a: Seq<u8>, b: Seq<u8>)
    ensures
        run_out(State::Ground, a) + run_out(run_state(State::Ground, a), b) == spec_strip(a + b),
{
    lemma_run_concat(State::Ground, a, b);
}

/// What pushing `chunks` in turn into a stream in state `s` outputs, and
/// the state it leaves.
pub open spec fn push_all(s: State, chunks: Seq<Seq<u8>>) -> (State, Seq<u8>)
    decreases chunks.len(),
{
    if chunks.len() == 0 {
        (s, Seq::empty())
    } else {
        let p = push_all(s, chunks.drop_last());
        (run_state(p.0, chunks.last()), p.1 + run_out(p.0, chunks.last()))
    }
}

proof fn lemma_push_all_runs(s: State, chunks: Seq<Seq<u8>>)
    ensures
        push_all(s, chunks) == (run_state(s, concat_all(chunks)), run_out(s, concat_all(chunks))),
    decreases chunks.len(),
{
    if chunks.len() > 0 {
        lemma_push_all_runs(s, chunks.drop_last());
        lemma_run_concat(s, concat_all(chunks.drop_last()), chunks.last());
    } else {
        assert(concat_all(chunks) =~= Seq::<u8>::empty());
    }
}

/// Streaming law for any number of chunks: pushing the chunks of an input
/// one after the other into a fresh stream outputs exactly what stripping
/// the whole input outputs, and leaves the parser where the whole input
/// leaves it.
pub proof fn law_stream_chunks_match_whole(chunks: Seq<Seq<u8>>)
    ensures
        push_all(State::Ground, chunks).1 == spec_strip(concat_all(chunks)),
        push_all(State::Ground, chunks).0 == run_state(State::Ground, concat_all(chunks)),
{
    lemma_push_all_runs(State::Ground, chunks);
}

} // verus!
