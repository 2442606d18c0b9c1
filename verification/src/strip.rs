//! One-shot stripping of ANSI escape sequences.

use std::borrow::Cow;

use vstd::prelude::*;

use crate::parser::{
    Action, ESC, Parser, State, lemma_ground_no_esc, lemma_run_concat, lemma_run_push, run_out,
    run_state,
};
use vstd::utf8::{decode_utf8, encode_utf8, encode_utf8_decode_utf8, encode_utf8_valid_utf8, valid_utf8};
use vstd::string::{StringExecFns, StringSliceAdditionalSpecFns};
use vstd::pervasive::VecAdditionalExecFns;

use crate::scan::{append_range, append_slice, find_byte, next_esc};

verus! {

/// What stripping `input` yields: the bytes the parser emits when run from
/// the ground state over all of `input`.
pub open spec fn spec_strip(input: Seq<u8>) -> Seq<u8> {
    run_out(State::Ground, input)
}

/// Ground-state bookkeeping for a stretch without ESC: appending it to a
/// prefix that ends in the ground state emits it unchanged.
proof fn lemma_ground_extend(input: Seq<u8>, a: int, b: int)
    requires
        0 <= a <= b <= input.len(),
        run_state(State::Ground, input.take(a)) == State::Ground,
        !input.subrange(a, b).contains(ESC),
    ensures
        run_state(State::Ground, input.take(b)) == State::Ground,
        run_out(State::Ground, input.take(b)) == run_out(State::Ground, input.take(a))
            + input.subrange(a, b),
{
    lemma_ground_no_esc(input.subrange(a, b));
    lemma_run_concat(State::Ground, input.take(a), input.subrange(a, b));
    assert(input.take(a) + input.subrange(a, b) =~= input.take(b));
}

/// The index of the first byte at or after `i` whose run from the ground
/// state emits something beyond `s[..e]`, if any.
pub open spec fn emit_scan(s: Seq<u8>, e: int, i: int) -> Option<int>
    decreases s.len() - i,
{
    if i < 0 || i >= s.len() {
        None
    } else if run_out(State::Ground, s.take(i + 1)) != s.take(e) {
        Some(i)
    } else {
        emit_scan(s, e, i + 1)
    }
}

/// The index of the first ESC of `s` (when it has one).
pub open spec fn first_esc(s: Seq<u8>) -> int {
    choose|i: int| 0 <= i < s.len() && s[i] == ESC && forall|j: int| 0 <= j < i ==> s[j] != ESC
}

/// Whether [`strip`] can answer with a slice of its input: no ESC at all;
/// escapes only after the last content byte; or escapes only before the
/// first content byte (the input starts with ESC, the parser is back in
/// ground after the first byte it emits, and no ESC follows).
pub open spec fn spec_strip_borrows(s: Seq<u8>) -> bool {
    if !s.contains(ESC) {
        true
    } else {
        let e = first_esc(s);
        match emit_scan(s, e, e) {
            None => true,
            Some(k) => e == 0 && run_state(State::Ground, s.take(k + 1)) == State::Ground
                && !s.skip(k).contains(ESC),
        }
    }
}

/// Runs a parser from the ground state at `esc` (the first ESC of `input`)
/// until it emits a byte, returning that byte's index and the parser.
fn speculate(input: &[u8], esc: usize) -> (r: (Option<usize>, Parser))
    requires
        esc < input@.len(),
        run_state(State::Ground, input@.take(esc as int)) == State::Ground,
        run_out(State::Ground, input@.take(esc as int)) == input@.take(esc as int),
    ensures
        (match r.0 {
            Some(k) => Some(k as int),
            None => None,
        }) == emit_scan(input@, esc as int, esc as int),
        r.0 is None ==> spec_strip(input@) == input@.take(esc as int),
        r.0 matches Some(k) ==> esc <= k < input@.len() && r.1@ == run_state(
            State::Ground,
            input@.take(k + 1),
        ) && run_out(State::Ground, input@.take(k + 1)) == input@.take(esc as int).push(
            input@[k as int],
        ),
{
    let len = input.len();
    let mut parser = Parser::new();
    let mut first_emit: Option<usize> = None;
    let mut i: usize = esc;
    while i < len && first_emit.is_none()
        invariant
            len == input@.len(),
            esc <= i <= len,
            parser@ == run_state(State::Ground, input@.take(i as int)),
            first_emit is None ==> run_out(State::Ground, input@.take(i as int)) == input@.take(
                esc as int,
            ),
            first_emit is None ==> emit_scan(input@, esc as int, esc as int) == emit_scan(
                input@,
                esc as int,
                i as int,
            ),
            first_emit matches Some(k) ==> emit_scan(input@, esc as int, esc as int) == Some(
                k as int,
            ),
            first_emit matches Some(k) ==> k + 1 == i && esc <= k && run_out(
                State::Ground,
                input@.take(i as int),
            ) == input@.take(esc as int).push(input@[k as int]),
        decreases len - i,
    {
        let b = input[i];
        let action = parser.feed(b);
        proof {
            lemma_run_push(State::Ground, input@.take(i as int), b);
            assert(input@.take(i as int).push(b) =~= input@.take(i + 1));
        }
        if action == Action::Emit {
            first_emit = Some(i);
        }
        i += 1;
    }
    if first_emit.is_none() {
        assert(input@.take(len as int) =~= input@);
    }
    (first_emit, parser)
}

/// Feeds one escape sequence, starting at the ESC at `pos`, through a fresh
/// parser until the parser is back in ground; returns the index after it.
fn strip_one_escape(input: &[u8], pos: usize, output: &mut Vec<u8>) -> (next: usize)
    requires
        pos < input@.len(),
        input@[pos as int] == ESC,
        run_state(State::Ground, input@.take(pos as int)) == State::Ground,
        old(output)@ == run_out(State::Ground, input@.take(pos as int)),
    ensures
        pos < next <= input@.len(),
        next < input@.len() ==> run_state(State::Ground, input@.take(next as int))
            == State::Ground,
        final(output)@ == run_out(State::Ground, input@.take(next as int)),
{
    let len = input.len();
    let mut p = Parser::new();
    let action = p.feed(input[pos]);
    proof {
        lemma_run_push(State::Ground, input@.take(pos as int), ESC);
        assert(input@.take(pos as int).push(ESC) =~= input@.take(pos + 1));
    }
    let mut i: usize = pos + 1;
    while i < len
        invariant
            len == input@.len(),
            pos < i <= len,
            p@ == run_state(State::Ground, input@.take(i as int)),
            output@ == run_out(State::Ground, input@.take(i as int)),
        ensures
            pos < i <= len,
            p@ == run_state(State::Ground, input@.take(i as int)),
            output@ == run_out(State::Ground, input@.take(i as int)),
            i < len ==> p@ == State::Ground,
        decreases len - i,
    {
        let b = input[i];
        let action = p.feed(b);
        proof {
            lemma_run_push(State::Ground, input@.take(i as int), b);
            assert(input@.take(i as int).push(b) =~= input@.take(i + 1));
        }
        if action == Action::Emit {
            output.push(b);
        }
        i += 1;
        // Back in ground: the next byte may start a new ESC, rescan.
        if p.is_ground() {
            break;
        }
    }
    i
}

/// Full strip from the first ESC at `esc`: copies ground runs between
/// escapes and feeds each escape through a fresh parser.
fn strip_owned(input: &[u8], esc: usize) -> (output: Vec<u8>)
    requires
        esc <= input@.len(),
        run_state(State::Ground, input@.take(esc as int)) == State::Ground,
        run_out(State::Ground, input@.take(esc as int)) == input@.take(esc as int),
    ensures
        output@ == spec_strip(input@),
{
    let len = input.len();
    let mut output: Vec<u8> = Vec::with_capacity(len);
    // Copy the clean prefix before the first ESC.
    append_range(&mut output, input, 0, esc);
    assert(input@.subrange(0, esc as int) =~= input@.take(esc as int));
    let mut pos: usize = esc;
    while pos < len
        invariant
            len == input@.len(),
            pos <= len,
            pos < len ==> run_state(State::Ground, input@.take(pos as int)) == State::Ground,
            output@ == run_out(State::Ground, input@.take(pos as int)),
        decreases len - pos,
    {
        let next = next_esc(input, pos);
        append_range(&mut output, input, pos, next);
        proof {
            lemma_ground_extend(input@, pos as int, next as int);
        }
        pos = next;
        if pos < len {
            pos = strip_one_escape(input, pos, &mut output);
        }
    }
    assert(input@.take(len as int) =~= input@);
    output
}

/// Strip ANSI escape sequences from a byte slice.
///
/// Returns `Cow::Borrowed` when no allocation is needed:
/// - No ESC bytes → borrowed input
/// - Only trailing escapes → borrowed prefix
/// - Only leading escapes → borrowed suffix
///
/// Returns `Cow::Owned` when escapes are interleaved with content.
pub fn strip(input: &[u8]) -> (r: Cow<'_, [u8]>)
    ensures
        r@ == spec_strip(input@),
        r is Borrowed <==> spec_strip_borrows(input@),
{
    let len = input.len();
    let esc = match find_byte(ESC, input) {
        None => {
            proof {
                lemma_ground_no_esc(input@);
            }
            return Cow::Borrowed(input);
        },
        Some(e) => e,
    };
    proof {
        assert(input@.take(0) =~= Seq::<u8>::empty());
        assert(input@.subrange(0, esc as int) =~= input@.take(esc as int));
        assert(!input@.subrange(0, esc as int).contains(ESC)) by {
            if input@.subrange(0, esc as int).contains(ESC) {
                let k = choose|k: int|
                    0 <= k < esc && #[trigger] input@.subrange(0, esc as int)[k] == ESC;
                assert(input@[k] == ESC);
            }
        }
        lemma_ground_extend(input@, 0, esc as int);
    }
    // Speculative: are all bytes from the first ESC onward part of escapes?
    let (first_emit, parser) = speculate(input, esc);
    let emit_pos = match first_emit {
        None => {
            // Trailing escapes only.
            return Cow::Borrowed(vstd::slice::slice_subrange(input, 0, esc));
        },
        Some(k) => k,
    };
    // Leading escapes only? Parser back in ground, no more ESC after emit_pos.
    if esc == 0 && parser.is_ground() {
        let tail = vstd::slice::slice_subrange(input, emit_pos, len);
        if find_byte(ESC, tail).is_none() {
            proof {
                let rest = input@.subrange(emit_pos + 1, len as int);
                assert(!rest.contains(ESC)) by {
                    if rest.contains(ESC) {
                        let k = choose|k: int| 0 <= k < rest.len() && #[trigger] rest[k] == ESC;
                        assert(tail@[k + 1] == ESC);
                    }
                }
                lemma_ground_no_esc(rest);
                lemma_run_concat(State::Ground, input@.take(emit_pos + 1), rest);
                assert(input@.take(emit_pos + 1) + rest =~= input@);
                assert(input@.take(0).push(input@[emit_pos as int]) + rest =~= tail@);
            }
            return Cow::Borrowed(tail);
        }
    }
    // Full strip: ground-state scan between escapes.
    Cow::Owned(strip_owned(input, esc))
}

/// Builds a `String` from bytes with `String::from_utf8`.
///
/// Trusted: per its documentation, `String::from_utf8` succeeds exactly when
/// the bytes are valid UTF-8, and the string then holds the decoded
/// characters.
#[verifier::external_body]
pub(crate) fn string_from_utf8(bytes: Vec<u8>) -> (r: Option<String>)
    ensures
        r is Some <==> valid_utf8(bytes@),
        r matches Some(s) ==> s@ == decode_utf8(bytes@),
{
    String::from_utf8(bytes).ok()
}

/// The string slice of bytes, by `std::str::from_utf8`.
///
/// Trusted: `from_utf8` succeeds exactly on valid UTF-8, and the slice
/// then holds the characters the bytes encode.
#[verifier::external_body]
pub(crate) fn str_from_utf8(b: &[u8]) -> (r: Option<&str>)
    ensures
        r is Some <==> valid_utf8(b@),
        r matches Some(s) ==> s@ == decode_utf8(b@),
{
    std::str::from_utf8(b).ok()
}

/// Stripping a `&str` as its bytes, as characters.
pub open spec fn spec_strip_str(input: Seq<char>) -> Seq<char> {
    decode_utf8(spec_strip(encode_utf8(input)))
}

// ── Text of bytes that may split characters ─────────────────────────
/// The length of the character encoded at `i`: the fewest bytes (1 to 4)
/// from `i` that form valid UTF-8, or 0 when none do (a byte left over
/// from a split character).
pub open spec fn char_len_at(b: Seq<u8>, i: int) -> int {
    if i + 1 <= b.len() && valid_utf8(b.subrange(i, i + 1)) {
        1
    } else if i + 2 <= b.len() && valid_utf8(b.subrange(i, i + 2)) {
        2
    } else if i + 3 <= b.len() && valid_utf8(b.subrange(i, i + 3)) {
        3
    } else if i + 4 <= b.len() && valid_utf8(b.subrange(i, i + 4)) {
        4
    } else {
        0
    }
}

/// The characters of `b` from `i` on, dropping every byte that does not
/// belong to a whole character.
pub open spec fn decode_dropping(b: Seq<u8>, i: int) -> Seq<char>
    decreases b.len() - i,
{
    if i < 0 || i >= b.len() {
        Seq::empty()
    } else {
        let k = char_len_at(b, i);
        if k == 0 {
            decode_dropping(b, i + 1)
        } else {
            decode_utf8(b.subrange(i, i + k)) + decode_dropping(b, i + k)
        }
    }
}

/// The character at `i`: its length and its text.
fn char_at<'a>(b: &'a [u8], i: usize) -> (r: (usize, Option<&'a str>))
    requires
        i < b@.len(),
    ensures
        r.0 == char_len_at(b@, i as int),
        r.0 > 0 ==> (r.1 matches Some(t) && t@ == decode_utf8(b@.subrange(i as int, i + r.0))),
{
    let n = b.len();
    let mut k: usize = 1;
    while k <= 4
        invariant
            1 <= k <= 5,
            i < n == b@.len(),
            forall|j: int| 1 <= j < k ==> !(i + j <= n && valid_utf8(#[trigger] b@.subrange(i as int, i + j))),
        decreases 5 - k,
    {
        if k <= n - i {
            let piece = vstd::slice::slice_subrange(b, i, i + k);
            match str_from_utf8(piece) {
                Some(t) => {
                    return (k, Some(t));
                },
                None => {},
            }
        }
        k += 1;
    }
    (0, None)
}

/// The text of `b`, dropping the bytes of split characters.
pub(crate) fn text_dropping_split_chars(b: &[u8]) -> (s: String)
    ensures
        s@ == decode_dropping(b@, 0),
{
    let mut out = String::new();
    let n = b.len();
    let mut i: usize = 0;
    while i < n
        invariant
            n == b@.len(),
            i <= n,
            decode_dropping(b@, 0) == out@ + decode_dropping(b@, i as int),
        decreases n - i,
    {
        let (k, t) = char_at(b, i);
        if k == 0 {
            i += 1;
        } else {
            match t {
                Some(t) => {
                    let ghost before = out@;
                    out.append(t);
                    proof {
                        assert(before + (t@ + decode_dropping(b@, i + k)) =~= out@ + decode_dropping(b@, i + k));
                    }
                },
                None => {},
            }
            i += k;
        }
    }
    proof {
        assert(out@ + Seq::<char>::empty() =~= out@);
    }
    out
}

/// What [`strip_str`] returns: the text of the stripped bytes; when an
/// escape sequence swallowed part of a multi-byte character, the bytes
/// left over from split characters are dropped.
pub open spec fn spec_strip_str_any(input: Seq<char>, bytes: Seq<u8>) -> Seq<char> {
    if valid_utf8(spec_strip(bytes)) {
        spec_strip_str(input)
    } else {
        decode_dropping(spec_strip(bytes), 0)
    }
}

/// Strip ANSI escape sequences from a UTF-8 string.
///
/// Equivalent to [`strip`] on the string's bytes, and borrowed exactly when
/// `strip` borrows and its bytes are valid text. The result is always valid
/// text: bytes left over from characters split by an escape sequence are
/// dropped.
pub fn strip_str(input: &str) -> (r: Cow<'_, str>)
    ensures
        r@ == spec_strip_str_any(input@, input.spec_bytes()),
        r is Borrowed <==> (valid_utf8(spec_strip(input.spec_bytes())) && spec_strip_borrows(
            input.spec_bytes(),
        )),
{
    match try_strip_str(input) {
        Some(r) => r,
        None => {
            let stripped = strip(input.as_bytes());
            let text = match stripped {
                Cow::Borrowed(b) => text_dropping_split_chars(b),
                Cow::Owned(v) => text_dropping_split_chars(v.as_slice()),
            };
            Cow::Owned(text)
        },
    }
}

/// Fallible variant of [`strip_str`]: `None` when the stripped bytes are
/// not valid UTF-8.
pub fn try_strip_str(input: &str) -> (r: Option<Cow<'_, str>>)
    ensures
        r is Some <==> valid_utf8(spec_strip(input.spec_bytes())),
        r matches Some(c) ==> c@ == spec_strip_str(input@),
        r matches Some(c) ==> (c is Borrowed <==> spec_strip_borrows(input.spec_bytes())),
{
    let bytes = input.as_bytes();
    proof {
        encode_utf8_decode_utf8(input@);
        encode_utf8_valid_utf8(input@);
    }
    match strip(bytes) {
        // A slice of the input: its text is the same slice of the string.
        Cow::Borrowed(b) => match str_from_utf8(b) {
            Some(t) => Some(Cow::Borrowed(t)),
            None => None,
        },
        Cow::Owned(v) => match string_from_utf8(v) {
            Some(t) => Some(Cow::Owned(t)),
            None => None,
        },
    }
}

/// Strip ANSI escape sequences into a caller-provided buffer.
///
/// Appends stripped content to `out`. Does not clear `out` first.
pub fn strip_into(input: &[u8], out: &mut Vec<u8>)
    ensures
        final(out)@ == old(out)@ + spec_strip(input@),
{
    if find_byte(ESC, input).is_none() {
        proof {
            lemma_ground_no_esc(input@);
        }
        append_slice(out, input);
        return;
    }
    match strip(input) {
        Cow::Borrowed(b) => append_slice(out, b),
        Cow::Owned(v) => append_slice(out, v.as_slice()),
    }
}

/// Moves `buf[from..to]` down to `buf[dst..]` (`dst <= from`), front to back.
fn move_down(buf: &mut Vec<u8>, from: usize, to: usize, dst: usize)
    requires
        dst <= from <= to <= old(buf)@.len(),
    ensures
        final(buf)@.len() == old(buf)@.len(),
        final(buf)@.take(dst as int) == old(buf)@.take(dst as int),
        final(buf)@.subrange(dst as int, dst + (to - from)) == old(buf)@.subrange(
            from as int,
            to as int,
        ),
        forall|k: int| to <= k < old(buf)@.len() ==> final(buf)@[k] == old(buf)@[k],
{
    let ghost orig = buf@;
    let mut j: usize = from;
    while j < to
        invariant
            dst <= from <= j <= to <= orig.len(),
            buf@.len() == orig.len(),
            buf@.take(dst as int) == orig.take(dst as int),
            buf@.subrange(dst as int, dst + (j - from)) == orig.subrange(from as int, j as int),
            forall|k: int| j <= k < orig.len() ==> buf@[k] == orig[k],
        decreases to - j,
    {
        let b = buf[j];
        let d = dst + (j - from);
        buf.set(d, b);
        proof {
            assert(buf@.take(dst as int) =~= orig.take(dst as int));
            assert(buf@.subrange(dst as int, dst + (j + 1 - from)) =~= orig.subrange(
                from as int,
                j + 1,
            ));
        }
        j += 1;
    }
}

/// Strip ANSI escape sequences in place using gap compaction.
///
/// Returns the new length. The buffer is truncated to the new length.
pub fn strip_in_place(buf: &mut Vec<u8>) -> (n: usize)
    ensures
        final(buf)@ == spec_strip(old(buf)@),
        n == final(buf)@.len(),
{
    let ghost orig = buf@;
    let len = buf.len();
    let esc = match find_byte(ESC, buf.as_slice()) {
        None => {
            proof {
                lemma_ground_no_esc(orig);
            }
            return len;
        },
        Some(e) => e,
    };
    proof {
        assert(orig.take(0) =~= Seq::<u8>::empty());
        assert(!orig.subrange(0, esc as int).contains(ESC)) by {
            if orig.subrange(0, esc as int).contains(ESC) {
                let k = choose|k: int|
                    0 <= k < esc && #[trigger] orig.subrange(0, esc as int)[k] == ESC;
                assert(orig[k] == ESC);
            }
        }
        lemma_ground_extend(orig, 0, esc as int);
        assert(orig.subrange(0, esc as int) =~= orig.take(esc as int));
    }
    let mut dst: usize = esc;
    let mut src: usize = esc;
    while src < len
        invariant
            len == orig.len(),
            buf@.len() == len,
            dst <= src <= len,
            buf@.take(dst as int) == run_out(State::Ground, orig.take(src as int)),
            forall|k: int| src <= k < len ==> buf@[k] == orig[k],
            src < len ==> run_state(State::Ground, orig.take(src as int)) == State::Ground,
        decreases len - src,
    {
        // Find the next ESC from the current position.
        let next = next_esc(buf.as_slice(), src);
        proof {
            assert(buf@.subrange(src as int, next as int) =~= orig.subrange(src as int, next as int));
            lemma_ground_extend(orig, src as int, next as int);
        }
        // Copy ground bytes.
        let ghost before = buf@;
        move_down(buf, src, next, dst);
        proof {
            assert(buf@.take(dst + (next - src)) =~= before.take(dst as int) + orig.subrange(
                src as int,
                next as int,
            ));
        }
        dst = dst + (next - src);
        src = next;
        if src < len {
            // Feed escape bytes through a fresh parser until ground.
            let mut parser = Parser::new();
            let action = parser.feed(buf[src]);
            proof {
                lemma_run_push(State::Ground, orig.take(src as int), orig[src as int]);
                assert(orig.take(src as int).push(orig[src as int]) =~= orig.take(src + 1));
            }
            src += 1;
            let ghost start = src;
            while src < len
                invariant
                    start <= src,
                    len == orig.len(),
                    buf@.len() == len,
                    dst < src <= len,
                    buf@.take(dst as int) == run_out(State::Ground, orig.take(src as int)),
                    forall|k: int| src <= k < len ==> buf@[k] == orig[k],
                    parser@ == run_state(State::Ground, orig.take(src as int)),
                ensures
                    start <= src,
                    len == orig.len(),
                    buf@.len() == len,
                    dst <= src <= len,
                    buf@.take(dst as int) == run_out(State::Ground, orig.take(src as int)),
                    forall|k: int| src <= k < len ==> buf@[k] == orig[k],
                    src < len ==> parser@ == State::Ground,
                    parser@ == run_state(State::Ground, orig.take(src as int)),
                decreases len - src,
            {
                let b = buf[src];
                let action = parser.feed(b);
                proof {
                    lemma_run_push(State::Ground, orig.take(src as int), b);
                    assert(orig.take(src as int).push(b) =~= orig.take(src + 1));
                }
                if action == Action::Emit {
                    let ghost prev = buf@;
                    buf.set(dst, b);
                    proof {
                        assert(buf@.take(dst + 1) =~= prev.take(dst as int).push(b));
                    }
                    dst += 1;
                }
                src += 1;
                if parser.is_ground() {
                    break;
                }
            }
        }
    }
    buf.truncate(dst);
    assert(orig.take(len as int) =~= orig);
    dst
}

/// An ESC followed by a byte that introduces a sequence (any byte in
/// `0x20..=0x7E`, which covers every ECMA-48 introducer).
pub open spec fn esc_pair_at(s: Seq<u8>, i: int) -> bool {
    0 <= i && i + 1 < s.len() && s[i] == ESC && 0x20 <= s[i + 1] <= 0x7E
}

/// Check whether a byte slice contains any ANSI escape sequences: an ESC
/// followed by a valid introducer.
pub fn contains_ansi(input: &[u8]) -> (r: bool)
    ensures
        r == exists|i: int| esc_pair_at(input@, i),
{
    let len = input.len();
    let mut from: usize = 0;
    while from < len
        invariant
            len == input@.len(),
            from <= len,
            forall|i: int| 0 <= i < from ==> !esc_pair_at(input@, i),
        decreases len - from,
    {
        let pos = next_esc(input, from);
        proof {
            assert forall|i: int| from <= i < pos implies !esc_pair_at(input@, i) by {
                assert(input@.subrange(from as int, pos as int)[i - from] == input@[i]);
            }
        }
        if pos >= len {
            from = len;
        } else {
            // Check whether there is a valid introducer after ESC.
            if pos + 1 < len {
                let next = input[pos + 1];
                match next {
                    0x5B | 0x5D | 0x50 | 0x58 | 0x5E | 0x5F | 0x4E | 0x4F => {
                        assert(esc_pair_at(input@, pos as int));
                        return true;
                    },
                    0x20..=0x7E => {
                        assert(esc_pair_at(input@, pos as int));
                        return true;
                    },
                    _ => {},
                }
            }
            from = pos + 1;
        }
    }
    false
}

/// Drop-in replacement for `fast_strip_ansi::strip_ansi_bytes`: identical
/// to [`strip`].
pub fn strip_ansi_bytes(input: &[u8]) -> (r: Cow<'_, [u8]>)
    ensures
        r@ == spec_strip(input@),
{
    strip(input)
}

/// Drop-in replacement for `strip_ansi_escapes::strip`: always returns an
/// owned `Vec<u8>`.
pub fn strip_ansi_escapes(data: &[u8]) -> (r: Vec<u8>)
    ensures
        r@ == spec_strip(data@),
{
    match strip(data) {
        Cow::Borrowed(b) => vstd::slice::slice_to_vec(b),
        Cow::Owned(v) => v,
    }
}

/// Stripped output never contains an ESC byte.
pub proof fn law_strip_removes_every_esc(input: Seq<u8>)
    ensures
        !spec_strip(input).contains(ESC),
{
    crate::parser::lemma_out_no_esc(State::Ground, input);
}

/// Input without ESC is returned unchanged.
pub proof fn law_strip_clean_input_unchanged(input: Seq<u8>)
    requires
        !input.contains(ESC),
    ensures
        spec_strip(input) == input,
{
    lemma_ground_no_esc(input);
}

/// Stripping is idempotent: stripping stripped output changes nothing.
pub proof fn law_strip_idempotent(input: Seq<u8>)
    ensures
        spec_strip(spec_strip(input)) == spec_strip(input),
{
    crate::parser::lemma_out_no_esc(State::Ground, input);
    lemma_ground_no_esc(spec_strip(input));
}

} // verus!
