//! Byte-scanning helpers shared by the stripping and filtering code.

use vstd::prelude::*;

verus! {

/// Searches for the first occurrence of `needle` with `memchr::memchr`.
///
/// Trusted: `memchr` returns the index of the first occurrence of the byte,
/// or `None` when the byte does not occur (as its documentation states).
#[verifier::external_body]
pub(crate) fn find_byte(needle: u8, haystack: &[u8]) -> (r: Option<usize>)
    ensures
        r is None ==> !haystack@.contains(needle),
        r matches Some(i) ==> i < haystack@.len() && haystack@[i as int] == needle && forall|j: int|
            0 <= j < i ==> haystack@[j] != needle,
{
    memchr::memchr(needle, haystack)
}

/// Appends all of `s` to `out`.
pub fn append_slice(out: &mut Vec<u8>, s: &[u8])
    ensures
        final(out)@ == old(out)@ + s@,
{
    let mut i: usize = 0;
    while i < s.len()
        invariant
            i <= s@.len(),
            out@ == old(out)@ + s@.take(i as int),
        decreases s@.len() - i,
    {
        out.push(s[i]);
        assert(s@.take(i + 1) =~= s@.take(i as int).push(s@[i as int]));
        i += 1;
    }
    assert(s@.take(i as int) =~= s@);
}

/// Appends `s[from..to]` to `out`.
pub fn append_range(out: &mut Vec<u8>, s: &[u8], from: usize, to: usize)
    requires
        from <= to <= s@.len(),
    ensures
        final(out)@ == old(out)@ + s@.subrange(from as int, to as int),
{
    let mut i: usize = from;
    while i < to
        invariant
            from <= i <= to <= s@.len(),
            out@ == old(out)@ + s@.subrange(from as int, i as int),
        decreases to - i,
    {
        out.push(s[i]);
        assert(s@.subrange(from as int, i + 1) =~= s@.subrange(from as int, i as int).push(s@[i as int]));
        i += 1;
    }
}

/// Position of the next ESC at or after `from`, or `s.len()` when none.
pub fn next_esc(s: &[u8], from: usize) -> (r: usize)
    requires
        from <= s@.len(),
    ensures
        from <= r <= s@.len(),
        r < s@.len() ==> s@[r as int] == crate::parser::ESC,
        !s@.subrange(from as int, r as int).contains(crate::parser::ESC),
{
    let rest = vstd::slice::slice_subrange(s, from, s.len());
    match find_byte(crate::parser::ESC, rest) {
        Some(p) => {
            let ghost sub = s@.subrange(from as int, from + p);
            assert(sub =~= rest@.subrange(0, p as int));
            assert forall|k: int| 0 <= k < sub.len() implies #[trigger] sub[k] != crate::parser::ESC by {
                assert(sub[k] == rest@[k]);
            }
            from + p
        },
        None => {
            assert(rest@ =~= s@.subrange(from as int, s@.len() as int));
            s.len()
        },
    }
}

} // verus!
