//! Streaming color transform for chunked input.
//!
//! [`TransformStream`] is the counterpart of [`FilterStream`](crate::FilterStream)
//! that rewrites SGR color sequences for a target [`ColorDepth`] instead of
//! stripping or preserving them. It yields [`TransformSlice`]s: content
//! borrowed from the input, or owned rewritten bytes.

use vstd::prelude::*;

use smallvec::SmallVec;

use std::collections::VecDeque;

use crate::classifier::{
    classifier_inv, classify_step, initial_classifier_state, law_classifier_emit,
    law_classifier_inv_initial, law_classifier_inv_preserved, ClassifierState, ClassifyingParser,
    SeqAction, SeqKind,
};
use crate::downgrade::ColorDepth;
use crate::filter::{drain, lemma_drain_bound, lemma_drain_prefix, FilterScan};
use crate::parser::{is_abort_byte, State, ESC};
use crate::scan::{append_range, append_slice, find_byte, next_esc};
use crate::sgr_rewrite::{rewrite_sgr_params, spec_rewrite_sgr};
use crate::stream::concat_all;

verus! {

// ── Owned bytes ─────────────────────────────────────────────────────
/// Rewritten sequence bytes, held inline in a `SmallVec<[u8; 32]>`.
#[verifier::external_body]
#[derive(Debug)]
pub struct SgrBytes {
    bytes: SmallVec<[u8; 32]>,
}

/// The bytes held by an [`SgrBytes`], in order.
pub uninterp spec fn sgr_bytes_items(v: SgrBytes) -> Seq<u8>;

/// Inline bytes with the contents of a vector, by `SmallVec::from_vec`.
///
/// Trusted: `SmallVec::from_vec` holds the vector's items in order (moving
/// them inline when they fit).
#[verifier::external_body]
fn sgr_bytes_from_vec(v: Vec<u8>) -> (r: SgrBytes)
    ensures
        sgr_bytes_items(r) == v@,
{
    SgrBytes { bytes: SmallVec::from_vec(v) }
}

/// The slice of inline bytes, by `SmallVec::as_slice`.
///
/// Trusted: `SmallVec::as_slice` is the slice of its items in order.
#[verifier::external_body]
fn sgr_bytes_as_slice(v: &SgrBytes) -> (s: &[u8])
    ensures
        s@ == sgr_bytes_items(*v),
{
    v.bytes.as_slice()
}

// ── Slices and config ───────────────────────────────────────────────
/// A slice yielded by [`TransformStream`]: borrowed from the input, or
/// owned (a rewritten SGR sequence).
#[derive(Debug)]
pub enum TransformSlice<'a> {
    /// Content or preserved (not rewritten) sequence bytes.
    Borrowed(&'a [u8]),
    /// Bytes of a rewritten SGR sequence.
    Owned(SgrBytes),
}

/// The bytes of a transform slice.
pub open spec fn slice_bytes<'a>(s: TransformSlice<'a>) -> Seq<u8> {
    match s {
        TransformSlice::Borrowed(b) => b@,
        TransformSlice::Owned(v) => sgr_bytes_items(v),
    }
}

impl<'a> TransformSlice<'a> {
    /// View the slice contents as a byte slice.
    pub fn as_bytes(&self) -> (b: &[u8])
        ensures
            b@ == slice_bytes(*self),
    {
        match self {
            TransformSlice::Borrowed(b) => b,
            TransformSlice::Owned(v) => sgr_bytes_as_slice(v),
        }
    }
}

/// Configuration for the transform stream.
#[derive(Copy, Clone, Debug)]
pub struct TransformConfig {
    /// Target color depth for SGR rewriting.
    pub depth: ColorDepth,
}

impl TransformConfig {
    /// Create a new transform config.
    pub fn new(depth: ColorDepth) -> (c: Self)
        ensures
            c.depth == depth,
    {
        TransformConfig { depth }
    }

    /// Returns `true` if no transform is needed (pass-through).
    pub fn is_passthrough(&self) -> (b: bool)
        ensures
            b == (self.depth == ColorDepth::Truecolor),
    {
        self.depth == ColorDepth::Truecolor
    }
}

// ── Model ───────────────────────────────────────────────────────────
/// Whether a finished sequence is rewritten: an SGR sequence with color
/// content (its bytes are then at least `ESC [ m`).
pub open spec fn needs_rewrite(m: ClassifierState, whole: Seq<u8>) -> bool {
    m.kind == SeqKind::CsiSgr && m.sgr_content != 0 && whole.len() >= 3
}

/// One byte of transforming: the next progress and the bytes it outputs.
/// A sequence's bytes are held back until its final byte; an SGR sequence
/// with color is then output rewritten, any other sequence as it was.
/// CAN/SUB that abort a sequence are dropped.
pub open spec fn transform_step(depth: ColorDepth, st: FilterScan, b: u8) -> (FilterScan, Seq<u8>) {
    let (m, act) = classify_step(st.cp, b);
    match act {
        SeqAction::StartSeq => (FilterScan { cp: m, buf: seq![b] }, Seq::empty()),
        SeqAction::InSeq => (FilterScan { cp: m, buf: st.buf.push(b) }, Seq::empty()),
        SeqAction::EndSeq => {
            let whole = st.buf.push(b);
            (
                FilterScan { cp: m, buf: Seq::empty() },
                if needs_rewrite(m, whole) {
                    spec_rewrite_sgr(whole, depth)
                } else {
                    whole
                },
            )
        },
        SeqAction::Emit => (
            FilterScan { cp: m, buf: Seq::empty() },
            if st.cp.in_seq && is_abort_byte(b) {
                Seq::empty()
            } else {
                seq![b]
            },
        ),
    }
}

/// Transforming `input` from progress `st`: the final progress and output.
pub open spec fn transform_run(depth: ColorDepth, st: FilterScan, input: Seq<u8>) -> (FilterScan, Seq<u8>)
    decreases input.len(),
{
    if input.len() == 0 {
        (st, Seq::empty())
    } else {
        let prev = transform_run(depth, st, input.drop_last());
        let next = transform_step(depth, prev.0, input.last());
        (next.0, prev.1 + next.1)
    }
}

/// What one chunk of a transform stream yields, from classifier state `m`,
/// and the classifier state after it. A sequence left open by the previous
/// chunk is always stripped; after that the chunk is transformed per
/// sequence (or passed through whole at truecolor); a sequence still open at
/// the chunk's end is dropped and its rest stripped from the next chunk.
pub open spec fn transform_chunk(depth: ColorDepth, m: ClassifierState, t: Seq<u8>) -> (ClassifierState, Seq<u8>) {
    let d = drain(m, t);
    let rest = t.skip(d.1);
    if depth == ColorDepth::Truecolor {
        (d.0, rest)
    } else {
        let r = transform_run(depth, FilterScan { cp: d.0, buf: Seq::empty() }, rest);
        (r.0.cp, r.1)
    }
}

proof fn lemma_transform_run_push(depth: ColorDepth, st: FilterScan, t: Seq<u8>, x: u8)
    ensures
        transform_run(depth, st, t.push(x)).0 == transform_step(depth, transform_run(depth, st, t).0, x).0,
        transform_run(depth, st, t.push(x)).1 == transform_run(depth, st, t).1 + transform_step(
            depth,
            transform_run(depth, st, t).0,
            x,
        ).1,
{
    assert(t.push(x).drop_last() =~= t);
}

proof fn lemma_transform_run_concat(depth: ColorDepth, st: FilterScan, a: Seq<u8>, b: Seq<u8>)
    ensures
        transform_run(depth, st, a + b).0 == transform_run(depth, transform_run(depth, st, a).0, b).0,
        transform_run(depth, st, a + b).1 == transform_run(depth, st, a).1 + transform_run(
            depth,
            transform_run(depth, st, a).0,
            b,
        ).1,
    decreases b.len(),
{
    if b.len() == 0 {
        assert(a + b =~= a);
        assert(transform_run(depth, st, a).1 + Seq::<u8>::empty() =~= transform_run(depth, st, a).1);
    } else {
        let b0 = b.drop_last();
        lemma_transform_run_concat(depth, st, a, b0);
        assert((a + b).drop_last() =~= a + b0);
        assert((a + b).last() == b.last());
        let m = transform_run(depth, st, a).0;
        let step_out = transform_step(depth, transform_run(depth, m, b0).0, b.last()).1;
        assert(transform_run(depth, st, a).1 + transform_run(depth, m, b).1 =~= transform_run(
            depth,
            st,
            a,
        ).1 + transform_run(depth, m, b0).1 + step_out);
    }
}

/// From the ground state outside any sequence, bytes without ESC pass
/// through and leave the progress unchanged.
proof fn lemma_transform_ground_stretch(depth: ColorDepth, st: FilterScan, t: Seq<u8>)
    requires
        st.cp.parser == State::Ground,
        !st.cp.in_seq,
        st.buf == Seq::<u8>::empty(),
        !t.contains(ESC),
    ensures
        transform_run(depth, st, t).0 == st,
        transform_run(depth, st, t).1 == t,
    decreases t.len(),
{
    if t.len() > 0 {
        let t0 = t.drop_last();
        assert(!t0.contains(ESC)) by {
            if t0.contains(ESC) {
                let k = choose|k: int| 0 <= k < t0.len() && t0[k] == ESC;
                assert(t[k] == ESC);
            }
        }
        assert(t.last() != ESC) by {
            assert(t[t.len() - 1] == t.last());
        }
        lemma_transform_ground_stretch(depth, st, t0);
        assert(t0.push(t.last()) =~= t);
    }
}

// ── Slices ──────────────────────────────────────────────────────────
/// The bytes of each slice.
pub open spec fn pieces_bytes<'a>(ps: Seq<TransformSlice<'a>>) -> Seq<Seq<u8>> {
    ps.map_values(|s: TransformSlice<'a>| slice_bytes(s))
}

/// Where a slice of a transformed chunk comes from.
pub enum PieceSpec {
    /// Content bytes `input[a..b]` (at truecolor: all the rest of the
    /// chunk), lent from the input.
    Text(int, int),
    /// A whole sequence `input[a..b]` passed on unchanged, lent from the
    /// input.
    Kept(int, int),
    /// A rewritten SGR sequence.
    Rewritten(Seq<u8>),
}

/// Whether the last slice is content ending at `i`.
pub open spec fn ends_text_at(ps: Seq<PieceSpec>, i: int) -> bool {
    ps.len() > 0 && (ps.last() matches PieceSpec::Text(a, b) && b == i)
}

/// Content byte `i` added to the slices: it extends a content slice that
/// ends just before it, or starts a new one.
pub open spec fn add_text(ps: Seq<PieceSpec>, i: int) -> Seq<PieceSpec> {
    if ends_text_at(ps, i) {
        match ps.last() {
            PieceSpec::Text(a, _) => ps.drop_last().push(PieceSpec::Text(a, i + 1)),
            _ => ps.push(PieceSpec::Text(i, i + 1)),
        }
    } else {
        ps.push(PieceSpec::Text(i, i + 1))
    }
}

/// The slices made from `input[start..j]`, transformed from progress `st0`.
#[verifier::opaque]
pub open spec fn piece_run(depth: ColorDepth, st0: FilterScan, input: Seq<u8>, start: int, j: int) -> Seq<PieceSpec>
    decreases j - start,
{
    if j <= start {
        Seq::empty()
    } else {
        let ps = piece_run(depth, st0, input, start, j - 1);
        let st = transform_run(depth, st0, input.subrange(start, j - 1)).0;
        let b = input[j - 1];
        let (m, act) = classify_step(st.cp, b);
        match act {
            SeqAction::Emit => if st.cp.in_seq && is_abort_byte(b) {
                ps
            } else {
                add_text(ps, j - 1)
            },
            SeqAction::EndSeq => {
                let whole = st.buf.push(b);
                if needs_rewrite(m, whole) {
                    ps.push(PieceSpec::Rewritten(spec_rewrite_sgr(whole, depth)))
                } else {
                    ps.push(PieceSpec::Kept(j - whole.len(), j))
                }
            },
            _ => ps,
        }
    }
}

/// The slices a chunk is cut into: nothing for the end of a sequence left
/// open by the previous chunk; then, at truecolor, the rest of the chunk
/// whole; below truecolor, each maximal run of content, each sequence
/// passed on unchanged, and each rewritten SGR sequence, in order.
pub open spec fn transform_pieces(depth: ColorDepth, m: ClassifierState, input: Seq<u8>) -> Seq<PieceSpec> {
    let d = drain(m, input);
    if depth == ColorDepth::Truecolor {
        if d.1 < input.len() {
            seq![PieceSpec::Text(d.1, input.len() as int)]
        } else {
            Seq::empty()
        }
    } else {
        piece_run(depth, FilterScan { cp: d.0, buf: Seq::empty() }, input, d.1, input.len() as int)
    }
}

/// Whether a slice is the one `p` describes: lent from `input` for content
/// and unchanged sequences, owned for rewritten ones.
pub open spec fn piece_matches<'a>(s: TransformSlice<'a>, p: PieceSpec, input: Seq<u8>) -> bool {
    match p {
        PieceSpec::Text(a, b) => s matches TransformSlice::Borrowed(x) && 0 <= a < b <= input.len()
            && x@ == input.subrange(a, b),
        PieceSpec::Kept(a, b) => s matches TransformSlice::Borrowed(x) && 0 <= a < b <= input.len()
            && x@ == input.subrange(a, b),
        PieceSpec::Rewritten(v) => s matches TransformSlice::Owned(o) && sgr_bytes_items(o) == v,
    }
}

/// Whether slices are, one by one, those the specs describe.
pub open spec fn pieces_match<'a>(ss: Seq<TransformSlice<'a>>, ps: Seq<PieceSpec>, input: Seq<u8>) -> bool {
    &&& ss.len() == ps.len()
    &&& forall|i: int| 0 <= i < ss.len() ==> piece_matches(#[trigger] ss[i], ps[i], input)
}

/// A run of content bytes after a slice that is not content ending where
/// the run starts makes one new content slice.
proof fn lemma_piece_stretch(depth: ColorDepth, st0: FilterScan, input: Seq<u8>, start: int, pos: int, next: int)
    requires
        0 <= start <= pos < next <= input.len(),
        ({
            let st = transform_run(depth, st0, input.subrange(start, pos)).0;
            &&& st.cp.parser == State::Ground
            &&& !st.cp.in_seq
            &&& st.buf == Seq::<u8>::empty()
        }),
        forall|k: int| pos <= k < next ==> input[k] != ESC,
        !ends_text_at(piece_run(depth, st0, input, start, pos), pos),
    ensures
        piece_run(depth, st0, input, start, next) == piece_run(depth, st0, input, start, pos).push(
            PieceSpec::Text(pos, next),
        ),
        transform_run(depth, st0, input.subrange(start, next)).0 == transform_run(
            depth,
            st0,
            input.subrange(start, pos),
        ).0,
    decreases next - pos,
{
    reveal_with_fuel(piece_run, 1);
    let ps0 = piece_run(depth, st0, input, start, pos);
    if next - 1 > pos {
        lemma_piece_stretch(depth, st0, input, start, pos, next - 1);
    }
    let st = transform_run(depth, st0, input.subrange(start, next - 1)).0;
    let b = input[next - 1];
    assert(b != ESC);
    lemma_transform_run_push(depth, st0, input.subrange(start, next - 1), b);
    assert(input.subrange(start, next - 1).push(b) =~= input.subrange(start, next));
    let ps = piece_run(depth, st0, input, start, next - 1);
    assert(classify_step(st.cp, b).1 == SeqAction::Emit);
    if next - 1 > pos {
        assert(ends_text_at(ps, next - 1));
        assert(ps.drop_last() =~= ps0);
        assert(add_text(ps, next - 1) =~= ps0.push(PieceSpec::Text(pos, next)));
    } else {
        assert(add_text(ps, next - 1) =~= ps0.push(PieceSpec::Text(pos, next)));
    }
}

/// Whether the last slice, if any, ends by `j`.
pub open spec fn last_ends_by(ps: Seq<PieceSpec>, j: int) -> bool {
    ps.len() > 0 ==> match ps.last() {
        PieceSpec::Text(_, b) => b <= j,
        PieceSpec::Kept(_, b) => b <= j,
        PieceSpec::Rewritten(_) => true,
    }
}

/// The last slice made from `input[start..j]` ends by `j`.
proof fn lemma_piece_run_last_end(depth: ColorDepth, st0: FilterScan, input: Seq<u8>, start: int, j: int)
    ensures
        last_ends_by(piece_run(depth, st0, input, start, j), j),
    decreases j - start,
{
    reveal_with_fuel(piece_run, 1);
    if j > start {
        lemma_piece_run_last_end(depth, st0, input, start, j - 1);
        let ps = piece_run(depth, st0, input, start, j - 1);
        if ends_text_at(ps, j - 1) {
            match ps.last() {
                PieceSpec::Text(a, _) => {
                    assert(ps.drop_last().push(PieceSpec::Text(a, j)).last() == PieceSpec::Text(a, j));
                },
                _ => {},
            }
        }
    }
}

/// No slices are made from nothing.
proof fn lemma_piece_run_empty(depth: ColorDepth, st0: FilterScan, input: Seq<u8>, start: int)
    ensures
        piece_run(depth, st0, input, start, start) == Seq::<PieceSpec>::empty(),
{
    reveal_with_fuel(piece_run, 1);
}

/// What one more byte inside a sequence adds to the slices.
proof fn lemma_piece_run_step(depth: ColorDepth, st0: FilterScan, input: Seq<u8>, start: int, j: int)
    requires
        0 <= start <= j < input.len(),
    ensures
        ({
            let ps = piece_run(depth, st0, input, start, j);
            let next = piece_run(depth, st0, input, start, j + 1);
            let st = transform_run(depth, st0, input.subrange(start, j)).0;
            let b = input[j];
            let m = classify_step(st.cp, b).0;
            let act = classify_step(st.cp, b).1;
            let whole = st.buf.push(b);
            &&& (act == SeqAction::StartSeq || act == SeqAction::InSeq) ==> next == ps
            &&& (act == SeqAction::Emit && st.cp.in_seq && is_abort_byte(b)) ==> next == ps
            &&& (act == SeqAction::EndSeq && needs_rewrite(m, whole)) ==> next == ps.push(
                PieceSpec::Rewritten(spec_rewrite_sgr(whole, depth)),
            )
            &&& (act == SeqAction::EndSeq && !needs_rewrite(m, whole)) ==> next == ps.push(
                PieceSpec::Kept(j + 1 - whole.len(), j + 1),
            )
        }),
{
    reveal_with_fuel(piece_run, 1);
}

/// Slices that match their specs stay matched when one more of each is
/// added.
proof fn lemma_pieces_match_push<'a>(
    ss: Seq<TransformSlice<'a>>,
    ps: Seq<PieceSpec>,
    input: Seq<u8>,
    s: TransformSlice<'a>,
    p: PieceSpec,
)
    requires
        pieces_match(ss, ps, input),
        piece_matches(s, p, input),
    ensures
        pieces_match(ss.push(s), ps.push(p), input),
{
    assert forall|i: int| 0 <= i < ss.push(s).len() implies piece_matches(
        #[trigger] ss.push(s)[i],
        ps.push(p)[i],
        input,
    ) by {
        if i < ss.len() {
            assert(ss.push(s)[i] == ss[i]);
            assert(ps.push(p)[i] == ps[i]);
        }
    }
}

/// Whenever the classifier is between sequences, no sequence bytes are
/// held back.
proof fn lemma_transform_ground_holds_nothing(depth: ColorDepth, st: FilterScan, t: Seq<u8>)
    requires
        st.cp.parser == State::Ground ==> st.buf == Seq::<u8>::empty(),
    ensures
        transform_run(depth, st, t).0.cp.parser == State::Ground ==> transform_run(depth, st, t).0.buf
            == Seq::<u8>::empty(),
    decreases t.len(),
{
    if t.len() > 0 {
        lemma_transform_ground_holds_nothing(depth, st, t.drop_last());
    }
}

/// Splitting the input of a transform stream where the first part leaves
/// it between sequences changes nothing: the two chunks give together what
/// the whole gives, and leave the stream in the same state.
pub proof fn law_transform_split_at_ground(depth: ColorDepth, m: ClassifierState, a: Seq<u8>, b: Seq<u8>)
    requires
        transform_chunk(depth, m, a).0.parser == State::Ground,
    ensures
        transform_chunk(depth, m, a + b).0 == transform_chunk(depth, transform_chunk(depth, m, a).0, b).0,
        transform_chunk(depth, m, a + b).1 == transform_chunk(depth, m, a).1 + transform_chunk(
            depth,
            transform_chunk(depth, m, a).0,
            b,
        ).1,
{
    let d = drain(m, a);
    lemma_drain_bound(m, a);
    let ma = transform_chunk(depth, m, a).0;
    if d.1 == a.len() && d.0.parser != State::Ground {
        assert(a.skip(d.1) =~= Seq::<u8>::empty());
    }
    lemma_drain_prefix(m, a, b);
    assert((a + b).skip(d.1) =~= a.skip(d.1) + b);
    assert(drain(ma, b) == (ma, 0int));
    assert(b.skip(0) =~= b);
    if depth != ColorDepth::Truecolor {
        let st0 = FilterScan { cp: d.0, buf: Seq::empty() };
        lemma_transform_run_concat(depth, st0, a.skip(d.1), b);
        lemma_transform_ground_holds_nothing(depth, st0, a.skip(d.1));
    }
}

proof fn lemma_pieces_push<'a>(ps: Seq<TransformSlice<'a>>, s: TransformSlice<'a>)
    ensures
        pieces_bytes(ps.push(s)) == pieces_bytes(ps).push(slice_bytes(s)),
        concat_all(pieces_bytes(ps.push(s))) == concat_all(pieces_bytes(ps)) + slice_bytes(s),
{
    assert(pieces_bytes(ps.push(s)) =~= pieces_bytes(ps).push(slice_bytes(s)));
    assert(pieces_bytes(ps).push(slice_bytes(s)).drop_last() =~= pieces_bytes(ps));
}

/// The slices of one chunk, in order.
pub struct TransformSlices<'a> {
    pieces: VecDeque<TransformSlice<'a>>,
}

impl<'a> TransformSlices<'a> {
    /// The slices not yet handed out, in order.
    pub closed spec fn items(&self) -> Seq<TransformSlice<'a>> {
        self.pieces@
    }

    /// The bytes of the slices not yet handed out.
    pub open spec fn remaining(&self) -> Seq<Seq<u8>> {
        pieces_bytes(self.items())
    }

    /// Hands out the next slice, if any.
    pub fn next(&mut self) -> (r: Option<TransformSlice<'a>>)
        ensures
            old(self).remaining().len() == 0 ==> r is None && final(self).remaining() == old(
                self,
            ).remaining(),
            old(self).remaining().len() > 0 ==> (r matches Some(s) && slice_bytes(s) == old(
                self,
            ).remaining()[0] && final(self).remaining() == old(self).remaining().drop_first()),
            old(self).items().len() == 0 ==> r is None,
            old(self).items().len() > 0 ==> r == Some(old(self).items()[0]) && final(self).items()
                == old(self).items().drop_first(),
    {
        let r = self.pieces.pop_front();
        proof {
            if old(self).pieces@.len() > 0 {
                assert(pieces_bytes(self.pieces@) =~= pieces_bytes(old(self).pieces@).drop_first());
            }
        }
        r
    }
}

// ── Stream ──────────────────────────────────────────────────────────
/// Stateful streaming transform for chunked input.
///
/// Carries [`ClassifyingParser`] state across chunk boundaries. SGR
/// sequences with color content are rewritten to the target depth; all
/// other bytes pass through unchanged.
pub struct TransformStream {
    cp: ClassifyingParser,
    /// Bytes of the sequence in progress within a chunk.
    seq_buf: Vec<u8>,
    in_seq: bool,
}

impl View for TransformStream {
    type V = ClassifierState;

    closed spec fn view(&self) -> ClassifierState {
        self.cp@
    }
}

impl TransformStream {
    /// The classifier is inside a sequence exactly when its parser is away
    /// from the ground state.
    #[verifier::type_invariant]
    spec fn stream_inv(&self) -> bool {
        classifier_inv(self.cp@)
    }
}

impl TransformStream {
    /// Create a new transform stream in the ground state.
    pub fn new() -> (s: Self)
        ensures
            s@ == initial_classifier_state(),
    {
        proof {
            law_classifier_inv_initial();
        }
        TransformStream { cp: ClassifyingParser::new(), seq_buf: Vec::new(), in_seq: false }
    }

    /// Reset the parser to the ground state.
    pub fn reset(&mut self)
        ensures
            final(self)@ == initial_classifier_state(),
    {
        let mut cp = self.cp;
        cp.reset();
        proof {
            law_classifier_inv_initial();
        }
        self.cp = cp;
        self.seq_buf = Vec::new();
        self.in_seq = false;
    }

    /// Discard any incomplete escape at stream end.
    pub fn finish(&mut self)
        ensures
            final(self)@ == initial_classifier_state(),
    {
        self.reset();
    }

    /// Returns `true` if the parser is in the ground state.
    pub fn is_ground(&self) -> (b: bool)
        ensures
            b == (self@.parser == State::Ground),
    {
        self.cp.is_ground()
    }

    /// Transform a chunk, yielding slices of content and transformed or
    /// preserved sequence bytes.
    #[verifier::spinoff_prover]
    #[verifier::rlimit(80)]
    pub fn transform_slices<'a>(&mut self, input: &'a [u8], config: &TransformConfig) -> (r: TransformSlices<'a>)
        ensures
            concat_all(r.remaining()) == transform_chunk(config.depth, old(self)@, input@).1,
            pieces_match(r.items(), transform_pieces(config.depth, old(self)@, input@), input@),
            final(self)@ == transform_chunk(config.depth, old(self)@, input@).0,
            classifier_inv(final(self)@),
    {
        proof {
            use_type_invariant(&*self);
        }
        let mut cp = self.cp;
        let ghost depth = config.depth;
        let ghost m0 = cp@;
        let len = input.len();
        let mut pieces: VecDeque<TransformSlice<'a>> = VecDeque::new();
        let mut pos: usize = 0;
        proof {
            assert(input@.skip(0) =~= input@);
            lemma_drain_bound(m0, input@);
        }
        // Phase 1: drain a sequence left open by the previous chunk; it
        // cannot be rewritten without its start, so it is stripped.
        while pos < len && !cp.is_ground()
            invariant
                len == input@.len(),
                pos <= len,
                drain(m0, input@) == (drain(cp@, input@.skip(pos as int)).0, pos + drain(
                    cp@,
                    input@.skip(pos as int),
                ).1),
                classifier_inv(cp@),
            decreases len - pos,
        {
            let b = input[pos];
            proof {
                assert(input@.skip(pos as int)[0] == b);
                assert(input@.skip(pos as int).drop_first() =~= input@.skip(pos + 1));
                law_classifier_inv_preserved(cp@, b);
            }
            let _ = cp.feed(b);
            pos += 1;
        }
        let mut in_seq = !cp.is_ground();
        let ghost d = drain(m0, input@);
        proof {
            assert(d.0 == cp@ && d.1 == pos);
            assert(pieces_bytes(pieces@) =~= Seq::<Seq<u8>>::empty());
        }
        let ghost rest = input@.skip(pos as int);
        if config.is_passthrough() {
            // Pass through everything that follows.
            if pos < len {
                let slice = vstd::slice::slice_subrange(input, pos, len);
                proof {
                    lemma_pieces_push(pieces@, TransformSlice::Borrowed(slice));
                    assert(slice@ =~= rest);
                    lemma_pieces_match_push(
                        pieces@,
                        Seq::empty(),
                        input@,
                        TransformSlice::Borrowed(slice),
                        PieceSpec::Text(pos as int, len as int),
                    );
                    assert(Seq::<PieceSpec>::empty().push(PieceSpec::Text(pos as int, len as int))
                        =~= seq![PieceSpec::Text(pos as int, len as int)]);
                }
                pieces.push_back(TransformSlice::Borrowed(slice));
            } else {
                assert(rest =~= Seq::<u8>::empty());
            }
            self.cp = cp;
            self.seq_buf = Vec::new();
            self.in_seq = in_seq;
            return TransformSlices { pieces };
        }
        let ghost st0 = FilterScan { cp: cp@, buf: Seq::empty() };
        let ghost start = pos;
        let mut seq_start: usize = pos;
        proof {
            assert(input@.subrange(start as int, pos as int) =~= Seq::<u8>::empty());
            lemma_drain_bound(m0, input@);
            lemma_piece_run_empty(depth, st0, input@, start as int);
            assert(pieces@ =~= Seq::<TransformSlice<'a>>::empty());
        }
        // Phase 2: content runs and whole sequences of this chunk.
        while pos < len
            invariant
                len == input@.len(),
                start <= pos <= len,
                rest == input@.subrange(start as int, len as int),
                cp@ == transform_run(depth, st0, input@.subrange(start as int, pos as int)).0.cp,
                start <= seq_start <= pos,
                transform_run(depth, st0, input@.subrange(start as int, pos as int)).0.buf
                    == input@.subrange(seq_start as int, pos as int),
                concat_all(pieces_bytes(pieces@)) == transform_run(
                    depth,
                    st0,
                    input@.subrange(start as int, pos as int),
                ).1,
                in_seq == cp@.in_seq,
                classifier_inv(cp@),
                pos < len ==> cp@.parser == State::Ground,
                pos < len ==> seq_start == pos,
                depth == config.depth,
                depth != ColorDepth::Truecolor,
                pieces_match(pieces@, piece_run(depth, st0, input@, start as int, pos as int), input@),
                pos < len ==> !ends_text_at(
                    piece_run(depth, st0, input@, start as int, pos as int),
                    pos as int,
                ),
            decreases len - pos,
        {
            let next = next_esc(input, pos);
            if next > pos {
                let slice = vstd::slice::slice_subrange(input, pos, next);
                proof {
                    assert forall|k: int| pos <= k < next implies input@[k] != ESC by {
                        assert(input@.subrange(pos as int, next as int)[k - pos] == input@[k]);
                    }
                    let st = transform_run(depth, st0, input@.subrange(start as int, pos as int)).0;
                    assert(input@.subrange(seq_start as int, pos as int) =~= Seq::<u8>::empty());
                    lemma_piece_stretch(depth, st0, input@, start as int, pos as int, next as int);
                    lemma_pieces_match_push(
                        pieces@,
                        piece_run(depth, st0, input@, start as int, pos as int),
                        input@,
                        TransformSlice::Borrowed(slice),
                        PieceSpec::Text(pos as int, next as int),
                    );
                    lemma_transform_ground_stretch(depth, st, slice@);
                    lemma_transform_run_concat(
                        depth,
                        st0,
                        input@.subrange(start as int, pos as int),
                        slice@,
                    );
                    assert(input@.subrange(start as int, pos as int) + slice@ =~= input@.subrange(
                        start as int,
                        next as int,
                    ));
                    lemma_pieces_push(pieces@, TransformSlice::Borrowed(slice));
                    assert(input@.subrange(next as int, next as int) =~= Seq::<u8>::empty());
                }
                pieces.push_back(TransformSlice::Borrowed(slice));
                pos = next;
                seq_start = next;
            }
            let ghost entry = pos;
            proof {
                lemma_piece_run_last_end(depth, st0, input@, start as int, entry as int);
            }
            // The escape at `pos`: feed until it ends.
            while pos < len
                invariant_except_break
                    pos == entry && pos < len ==> cp@.parser == State::Ground,
                    pos > entry ==> cp@.parser != State::Ground,
                    pos > entry ==> piece_run(depth, st0, input@, start as int, pos as int)
                        == piece_run(depth, st0, input@, start as int, entry as int),
                invariant
                    entry <= pos,
                    entry < len ==> input@[entry as int] == ESC,
                    last_ends_by(piece_run(depth, st0, input@, start as int, entry as int), entry as int),
                    pieces_match(pieces@, piece_run(depth, st0, input@, start as int, pos as int), input@),
                    len == input@.len(),
                    start <= pos <= len,
                    cp@ == transform_run(depth, st0, input@.subrange(start as int, pos as int)).0.cp,
                    start <= seq_start <= pos,
                    transform_run(depth, st0, input@.subrange(start as int, pos as int)).0.buf
                        == input@.subrange(seq_start as int, pos as int),
                    concat_all(pieces_bytes(pieces@)) == transform_run(
                        depth,
                        st0,
                        input@.subrange(start as int, pos as int),
                    ).1,
                    in_seq == cp@.in_seq,
                    classifier_inv(cp@),
                    depth == config.depth,
                    depth != ColorDepth::Truecolor,
                ensures
                    entry < len ==> entry < pos,
                    start <= pos <= len,
                    cp@ == transform_run(depth, st0, input@.subrange(start as int, pos as int)).0.cp,
                    start <= seq_start <= pos,
                    transform_run(depth, st0, input@.subrange(start as int, pos as int)).0.buf
                        == input@.subrange(seq_start as int, pos as int),
                    concat_all(pieces_bytes(pieces@)) == transform_run(
                        depth,
                        st0,
                        input@.subrange(start as int, pos as int),
                    ).1,
                    in_seq == cp@.in_seq,
                    classifier_inv(cp@),
                    pos < len ==> cp@.parser == State::Ground,
                    pos < len ==> seq_start == pos,
                    pieces_match(pieces@, piece_run(depth, st0, input@, start as int, pos as int), input@),
                    pos < len ==> !ends_text_at(
                        piece_run(depth, st0, input@, start as int, pos as int),
                        pos as int,
                    ),
                decreases len - pos,
            {
                let b = input[pos];
                let ghost st = transform_run(depth, st0, input@.subrange(start as int, pos as int)).0;
                let ghost whole = input@.subrange(seq_start as int, pos + 1);
                proof {
                    lemma_transform_run_push(depth, st0, input@.subrange(start as int, pos as int), b);
                    assert(input@.subrange(start as int, pos as int).push(b) =~= input@.subrange(
                        start as int,
                        pos + 1,
                    ));
                    law_classifier_inv_preserved(cp@, b);
                    law_classifier_emit(cp@, b);
                    crate::classifier::law_start_resets(cp@, b);
                    lemma_piece_run_step(depth, st0, input@, start as int, pos as int);
                    crate::parser::lemma_emit_only_from_ground(cp@.parser, b);
                    assert(input@.subrange(seq_start as int, pos as int).push(b) =~= whole);
                    assert(input@.subrange(pos as int, pos + 1) =~= seq![b]);
                    assert(input@.subrange(pos + 1, pos + 1) =~= Seq::<u8>::empty());
                }
                let action = cp.feed(b);
                let mut ended = false;
                match action {
                    SeqAction::StartSeq => {
                        in_seq = true;
                        seq_start = pos;
                    },
                    SeqAction::InSeq => {},
                    SeqAction::EndSeq => {
                        in_seq = false;
                        let seq_slice = vstd::slice::slice_subrange(input, seq_start, pos + 1);
                        let needs = cp.current_kind() == SeqKind::CsiSgr
                            && !cp.sgr_content().is_empty() && seq_slice.len() >= 3;
                        proof {
                            assert(seq_slice@ =~= whole);
                            assert(needs == needs_rewrite(cp@, whole));
                        }
                        if needs {
                            let rewritten = rewrite_sgr_params(seq_slice, config.depth);
                            let owned = TransformSlice::Owned(sgr_bytes_from_vec(rewritten));
                            proof {
                                lemma_pieces_push(pieces@, owned);
                                lemma_pieces_match_push(
                                    pieces@,
                                    piece_run(depth, st0, input@, start as int, pos as int),
                                    input@,
                                    owned,
                                    PieceSpec::Rewritten(spec_rewrite_sgr(whole, depth)),
                                );
                            }
                            pieces.push_back(owned);
                        } else {
                            proof {
                                lemma_pieces_push(pieces@, TransformSlice::Borrowed(seq_slice));
                                lemma_pieces_match_push(
                                    pieces@,
                                    piece_run(depth, st0, input@, start as int, pos as int),
                                    input@,
                                    TransformSlice::Borrowed(seq_slice),
                                    PieceSpec::Kept(seq_start as int, pos + 1),
                                );
                            }
                            pieces.push_back(TransformSlice::Borrowed(seq_slice));
                        }
                        seq_start = pos + 1;
                        ended = true;
                    },
                    SeqAction::Emit => {
                        // CAN/SUB aborting a sequence are dropped. Content
                        // cannot come here: this loop starts at an ESC and
                        // stops when its sequence ends.
                        if in_seq && (b == 0x18 || b == 0x1A) {
                            proof {
                                assert(concat_all(pieces_bytes(pieces@)) + Seq::<u8>::empty()
                                    =~= concat_all(pieces_bytes(pieces@)));
                            }
                        } else {
                            let one = vstd::slice::slice_subrange(input, pos, pos + 1);
                            proof {
                                assert(false);
                            }
                            pieces.push_back(TransformSlice::Borrowed(one));
                        }
                        in_seq = false;
                        seq_start = pos + 1;
                        ended = true;
                    },
                }
                pos += 1;
                if ended {
                    break;
                }
            }
        }
        proof {
            assert(input@.subrange(start as int, len as int) =~= rest);
        }
        self.cp = cp;
        self.seq_buf = Vec::new();
        self.in_seq = in_seq;
        TransformSlices { pieces }
    }

    /// Transform a chunk, appending all output bytes to `out`.
    pub fn push(&mut self, input: &[u8], config: &TransformConfig, out: &mut Vec<u8>)
        ensures
            final(out)@ == old(out)@ + transform_chunk(config.depth, old(self)@, input@).1,
            final(self)@ == transform_chunk(config.depth, old(self)@, input@).0,
            classifier_inv(final(self)@),
    {
        let mut slices = self.transform_slices(input, config);
        let ghost all = slices.remaining();
        loop
            invariant
                out@ + concat_all(slices.remaining()) == old(out)@ + concat_all(all),
            ensures
                out@ == old(out)@ + concat_all(all),
            decreases slices.remaining().len(),
        {
            let ghost before = slices.remaining();
            match slices.next() {
                Some(s) => {
                    proof {
                        lemma_concat_first(before);
                    }
                    append_slice(out, s.as_bytes());
                    proof {
                        assert(out@ + concat_all(slices.remaining()) =~= old(out)@ + concat_all(all));
                    }
                },
                None => {
                    proof {
                        assert(out@ + Seq::<u8>::empty() =~= out@);
                    }
                    break;
                },
            }
        }
    }
}

/// Concatenation splits off the first part.
proof fn lemma_concat_first(parts: Seq<Seq<u8>>)
    requires
        parts.len() > 0,
    ensures
        concat_all(parts) == parts[0] + concat_all(parts.drop_first()),
    decreases parts.len(),
{
    if parts.len() == 1 {
        assert(parts.drop_first() =~= Seq::<Seq<u8>>::empty());
        assert(parts.drop_last() =~= Seq::<Seq<u8>>::empty());
        assert(parts.last() == parts[0]);
        assert(concat_all(parts.drop_last()) == Seq::<u8>::empty());
        assert(concat_all(parts.drop_first()) == Seq::<u8>::empty());
        assert(concat_all(parts) =~= Seq::<u8>::empty() + parts[0]);
        assert(parts[0] + Seq::<u8>::empty() =~= parts[0]);
    } else {
        lemma_concat_first(parts.drop_last());
        assert(parts.drop_last().drop_first() =~= parts.drop_first().drop_last());
        assert(parts.drop_first().last() == parts.last());
        assert(parts.drop_last()[0] == parts[0]);
        assert(parts[0] + concat_all(parts.drop_first()) =~= parts[0] + concat_all(
            parts.drop_last().drop_first(),
        ) + parts.last());
    }
}

/// At truecolor depth a chunk that starts outside any sequence passes
/// through unchanged.
pub proof fn law_truecolor_passthrough(m: ClassifierState, t: Seq<u8>)
    requires
        m.parser == State::Ground,
    ensures
        transform_chunk(ColorDepth::Truecolor, m, t).1 == t,
{
    assert(t.skip(0) =~= t);
}

/// A chunk without ESC, fed outside any sequence, passes through unchanged
/// at every depth and leaves the state as it was.
pub proof fn law_plain_text_unchanged(depth: ColorDepth, m: ClassifierState, t: Seq<u8>)
    requires
        m.parser == State::Ground,
        !m.in_seq,
        !t.contains(ESC),
    ensures
        transform_chunk(depth, m, t).1 == t,
        transform_chunk(depth, m, t).0 == m,
{
    assert(t.skip(0) =~= t);
    lemma_transform_ground_stretch(depth, FilterScan { cp: m, buf: Seq::empty() }, t);
}

/// What [`transform_line`] yields: the input itself when it has no ESC,
/// otherwise the per-sequence transform from the ground state (a trailing
/// incomplete sequence is dropped).
pub open spec fn spec_transform_line(input: Seq<u8>, depth: ColorDepth) -> Seq<u8> {
    if !input.contains(ESC) {
        input
    } else {
        transform_run(depth, FilterScan { cp: initial_classifier_state(), buf: Seq::empty() }, input).1
    }
}

/// Transform a single line or chunk on its own: SGR sequences with color
/// are rewritten for `depth`, everything else passes through.
#[verifier::spinoff_prover]
#[verifier::rlimit(50)]
pub fn transform_line(input: &[u8], depth: ColorDepth) -> (out: Vec<u8>)
    ensures
        out@ == spec_transform_line(input@, depth),
{
    let mut output: Vec<u8> = Vec::new();
    // Fast path: no ESC byte.
    if find_byte(ESC, input).is_none() {
        append_slice(&mut output, input);
        return output;
    }
    let ghost st0 = FilterScan { cp: initial_classifier_state(), buf: Seq::empty() };
    let len = input.len();
    let mut cp = ClassifyingParser::new();
    let mut seq_buf: Vec<u8> = Vec::new();
    let mut in_seq = false;
    let mut pos: usize = 0;
    proof {
        assert(input@.take(0) =~= Seq::<u8>::empty());
        law_classifier_inv_initial();
    }
    while pos < len
        invariant
            len == input@.len(),
            pos <= len,
            cp@ == transform_run(depth, st0, input@.take(pos as int)).0.cp,
            seq_buf@ == transform_run(depth, st0, input@.take(pos as int)).0.buf,
            output@ == transform_run(depth, st0, input@.take(pos as int)).1,
            in_seq == cp@.in_seq,
            classifier_inv(cp@),
            pos < len ==> cp@.parser == State::Ground,
            pos < len ==> seq_buf@ == Seq::<u8>::empty(),
            st0 == (FilterScan { cp: initial_classifier_state(), buf: Seq::empty() }),
        decreases len - pos,
    {
        // Bulk-copy content bytes up to the next ESC.
        let next = next_esc(input, pos);
        append_range(&mut output, input, pos, next);
        proof {
            let st = transform_run(depth, st0, input@.take(pos as int)).0;
            lemma_transform_ground_stretch(depth, st, input@.subrange(pos as int, next as int));
            lemma_transform_run_concat(
                depth,
                st0,
                input@.take(pos as int),
                input@.subrange(pos as int, next as int),
            );
            assert(input@.take(pos as int) + input@.subrange(pos as int, next as int)
                =~= input@.take(next as int));
        }
        pos = next;
        let ghost entry = pos;
        // Process the escape sequence byte by byte until it ends.
        while pos < len
            invariant
                entry <= pos,
                len == input@.len(),
                pos <= len,
                cp@ == transform_run(depth, st0, input@.take(pos as int)).0.cp,
                seq_buf@ == transform_run(depth, st0, input@.take(pos as int)).0.buf,
                output@ == transform_run(depth, st0, input@.take(pos as int)).1,
                in_seq == cp@.in_seq,
                classifier_inv(cp@),
            ensures
                entry < len ==> entry < pos,
                pos <= len,
                cp@ == transform_run(depth, st0, input@.take(pos as int)).0.cp,
                seq_buf@ == transform_run(depth, st0, input@.take(pos as int)).0.buf,
                output@ == transform_run(depth, st0, input@.take(pos as int)).1,
                in_seq == cp@.in_seq,
                classifier_inv(cp@),
                pos < len ==> cp@.parser == State::Ground,
                pos < len ==> seq_buf@ == Seq::<u8>::empty(),
            decreases len - pos,
        {
            let b = input[pos];
            let ghost st = transform_run(depth, st0, input@.take(pos as int)).0;
            let ghost out0 = output@;
            proof {
                lemma_transform_run_push(depth, st0, input@.take(pos as int), b);
                assert(input@.take(pos as int).push(b) =~= input@.take(pos + 1));
                law_classifier_inv_preserved(cp@, b);
                law_classifier_emit(cp@, b);
                crate::parser::lemma_emit_only_from_ground(cp@.parser, b);
            }
            let action = cp.feed(b);
            let mut ended = false;
            match action {
                SeqAction::StartSeq => {
                    in_seq = true;
                    seq_buf.clear();
                    seq_buf.push(b);
                    proof {
                        assert(seq_buf@ =~= seq![b]);
                        assert(output@ =~= out0 + Seq::<u8>::empty());
                    }
                },
                SeqAction::InSeq => {
                    seq_buf.push(b);
                    proof {
                        assert(output@ =~= out0 + Seq::<u8>::empty());
                    }
                },
                SeqAction::EndSeq => {
                    in_seq = false;
                    seq_buf.push(b);
                    let needs = cp.current_kind() == SeqKind::CsiSgr && !cp.sgr_content().is_empty()
                        && seq_buf.len() >= 3;
                    if needs {
                        // Rewrite the SGR color parameters.
                        let rewritten = rewrite_sgr_params(seq_buf.as_slice(), depth);
                        append_slice(&mut output, rewritten.as_slice());
                    } else {
                        // Not SGR, or no color content: pass through.
                        append_slice(&mut output, seq_buf.as_slice());
                    }
                    seq_buf.clear();
                    ended = true;
                },
                SeqAction::Emit => {
                    // CAN/SUB aborting a sequence are suppressed.
                    if in_seq && (b == 0x18 || b == 0x1A) {
                        proof {
                            assert(output@ =~= out0 + Seq::<u8>::empty());
                        }
                    } else {
                        output.push(b);
                        proof {
                            assert(output@ =~= out0 + seq![b]);
                        }
                    }
                    in_seq = false;
                    seq_buf.clear();
                },
            }
            pos += 1;
            if ended {
                break;
            }
        }
    }
    proof {
        assert(input@.take(len as int) =~= input@);
    }
    output
}

/// The streaming transform of a first chunk agrees with transforming the
/// chunk on its own (below truecolor, where the stream does feed content).
pub proof fn law_first_chunk_matches_line(depth: ColorDepth, t: Seq<u8>)
    requires
        depth != ColorDepth::Truecolor,
    ensures
        transform_chunk(depth, initial_classifier_state(), t).1 == spec_transform_line(t, depth),
{
    assert(t.skip(0) =~= t);
    if !t.contains(ESC) {
        lemma_transform_ground_stretch(
            depth,
            FilterScan { cp: initial_classifier_state(), buf: Seq::empty() },
            t,
        );
    }
}

impl Default for TransformStream {
    fn default() -> (s: Self)
        ensures
            s@ == initial_classifier_state(),
    {
        Self::new()
    }
}

} // verus!
