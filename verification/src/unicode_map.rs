//! Unicode character mapping: built-in security defaults plus sets loaded
//! from TOML (additive only).
//!
//! The built-in mappings are security-motivated: fullwidth ASCII
//! homographs, math bold Latin, ligatures, circled letters, superscript and
//! subscript forms.

use vstd::prelude::*;

use crate::text::spells;

verus! {

// ── Data types ──────────────────────────────────────────────────────
/// A contiguous codepoint range with a constant offset: every codepoint
/// `c` in `from_start..=from_end` maps to `c + offset`.
#[derive(Copy, Clone, Debug, PartialEq, Eq, Structural)]
pub struct RangeMapping {
    pub from_start: u32,
    pub from_end: u32,
    pub offset: i32,
}

/// A single source codepoint with its replacement (one or more chars).
#[derive(Clone, Debug)]
pub struct PairMapping {
    pub from: char,
    pub target: Vec<char>,
}

/// Effect of a mapping on terminal column width.
#[derive(Copy, Clone, Debug, PartialEq, Eq, Structural)]
pub enum Direction {
    /// 2 columns to 1 (e.g. fullwidth ASCII to ASCII).
    Narrowing,
    /// 1 column to 2 (e.g. halfwidth katakana to standard).
    Widening,
    /// Same column width.
    Neutral,
}

/// A named set of character mappings with metadata.
#[derive(Clone, Debug)]
pub struct CharMappingSet {
    /// Unique name of the set (e.g. `"fullwidth_ascii"`).
    pub set_type: String,
    pub description: String,
    pub direction: Direction,
    pub tags: Vec<String>,
    pub ranges: Vec<RangeMapping>,
    pub pairs: Vec<PairMapping>,
}

/// A pair as a source char and its replacement.
pub open spec fn pair_view(p: PairMapping) -> (char, Seq<char>) {
    (p.from, p.target@)
}

/// The views of a sequence of pairs.
pub open spec fn pair_views(ps: Seq<PairMapping>) -> Seq<(char, Seq<char>)> {
    ps.map_values(|p: PairMapping| pair_view(p))
}

/// The views of a sequence of strings.
pub open spec fn tag_views(ts: Seq<String>) -> Seq<Seq<char>> {
    ts.map_values(|t: String| t@)
}

/// The ranges of all sets, in order.
pub open spec fn flat_ranges(sets: Seq<CharMappingSet>) -> Seq<RangeMapping>
    decreases sets.len(),
{
    if sets.len() == 0 {
        Seq::empty()
    } else {
        flat_ranges(sets.drop_last()) + sets.last().ranges@
    }
}

/// The pairs of all sets, in order.
pub open spec fn flat_pairs(sets: Seq<CharMappingSet>) -> Seq<(char, Seq<char>)>
    decreases sets.len(),
{
    if sets.len() == 0 {
        Seq::empty()
    } else {
        flat_pairs(sets.drop_last()) + pair_views(sets.last().pairs@)
    }
}

/// The first range that contains codepoint `cp`, if any.
pub open spec fn range_hit(rs: Seq<RangeMapping>, cp: u32) -> Option<RangeMapping>
    decreases rs.len(),
{
    if rs.len() == 0 {
        None
    } else if rs[0].from_start <= cp <= rs[0].from_end {
        Some(rs[0])
    } else {
        range_hit(rs.drop_first(), cp)
    }
}

/// The codepoint a range maps `cp` to (wrapping to 32 bits).
pub open spec fn range_target(r: RangeMapping, cp: u32) -> u32 {
    (cp + r.offset) as u32
}

/// Whether `u` is a Unicode scalar value (a `char`).
pub open spec fn is_scalar(u: u32) -> bool {
    u < 0xD800 || (0xE000 <= u && u <= 0x10FFFF)
}

/// The replacement of the first pair whose source is `c`, if any.
pub open spec fn first_with(ps: Seq<(char, Seq<char>)>, c: char) -> Option<Seq<char>>
    decreases ps.len(),
{
    if ps.len() == 0 {
        None
    } else if ps[0].0 as u32 == c as u32 {
        Some(ps[0].1)
    } else {
        first_with(ps.drop_first(), c)
    }
}

/// What a map of `sets` replaces `c` with: a range containing `c` decides
/// (nothing when its target is not a scalar value); otherwise the first
/// pair for `c`.
pub open spec fn spec_lookup(sets: Seq<CharMappingSet>, c: char) -> Option<Seq<char>> {
    match range_hit(flat_ranges(sets), c as u32) {
        Some(r) => if is_scalar(range_target(r, c as u32)) {
            Some(seq![range_target(r, c as u32) as char])
        } else {
            None
        },
        None => first_with(flat_pairs(sets), c),
    }
}

/// The single replacement char of `c`, if it has exactly one.
pub open spec fn spec_lookup_char(sets: Seq<CharMappingSet>, c: char) -> Option<char> {
    match spec_lookup(sets, c) {
        Some(t) => if t.len() == 1 {
            Some(t[0])
        } else {
            None
        },
        None => None,
    }
}

/// Whether the pairs are in order of source codepoint.
pub open spec fn sorted_by_source(ps: Seq<(char, Seq<char>)>) -> bool {
    forall|i: int, j: int| 0 <= i < j < ps.len() ==> (ps[i].0 as u32) <= (ps[j].0 as u32)
}

/// Whether some set of `sets` has type `t`.
pub open spec fn has_set(sets: Seq<CharMappingSet>, t: Seq<char>) -> bool {
    exists|i: int| 0 <= i < sets.len() && (#[trigger] sets[i]).set_type@ == t
}

/// `char::from_u32`: the char with codepoint `u`, if `u` is a scalar value.
///
/// Trusted: std documents that `from_u32` returns `None` exactly for
/// surrogates and values above `0x10FFFF`, and the char of that codepoint
/// otherwise.
#[verifier::external_body]
pub(crate) fn char_from_u32(u: u32) -> (r: Option<char>)
    ensures
        r == if is_scalar(u) {
            Some(u as char)
        } else {
            None
        },
{
    char::from_u32(u)
}

// ── Lemmas ──────────────────────────────────────────────────────────
proof fn lemma_first_with_concat(a: Seq<(char, Seq<char>)>, b: Seq<(char, Seq<char>)>, c: char)
    ensures
        first_with(a + b, c) == match first_with(a, c) {
            Some(t) => Some(t),
            None => first_with(b, c),
        },
    decreases a.len(),
{
    if a.len() > 0 {
        assert((a + b).drop_first() =~= a.drop_first() + b);
        lemma_first_with_concat(a.drop_first(), b, c);
    } else {
        assert(a + b =~= b);
    }
}

proof fn lemma_first_with_absent(ps: Seq<(char, Seq<char>)>, c: char)
    requires
        forall|i: int| 0 <= i < ps.len() ==> (#[trigger] ps[i]).0 as u32 != c as u32,
    ensures
        first_with(ps, c) is None,
    decreases ps.len(),
{
    if ps.len() > 0 {
        assert(ps[0].0 as u32 != c as u32);
        assert forall|i: int| 0 <= i < ps.drop_first().len() implies (#[trigger] ps.drop_first()[i]).0 as u32 != c as u32 by {
            assert(ps.drop_first()[i] == ps[i + 1]);
        }
        lemma_first_with_absent(ps.drop_first(), c);
    }
}

proof fn lemma_range_hit_concat(a: Seq<RangeMapping>, b: Seq<RangeMapping>, cp: u32)
    ensures
        range_hit(a + b, cp) == match range_hit(a, cp) {
            Some(r) => Some(r),
            None => range_hit(b, cp),
        },
    decreases a.len(),
{
    if a.len() > 0 {
        assert((a + b).drop_first() =~= a.drop_first() + b);
        lemma_range_hit_concat(a.drop_first(), b, cp);
    } else {
        assert(a + b =~= b);
    }
}

/// Inserting a pair after all pairs with a source at most its own keeps the
/// order and adds it as the first pair for its source only if it had none.
proof fn lemma_insert_upper(s: Seq<(char, Seq<char>)>, j: int, p: (char, Seq<char>))
    requires
        sorted_by_source(s),
        0 <= j <= s.len(),
        forall|i: int| 0 <= i < j ==> (#[trigger] s[i]).0 as u32 <= p.0 as u32,
        forall|i: int| j <= i < s.len() ==> (#[trigger] s[i]).0 as u32 > p.0 as u32,
    ensures
        sorted_by_source(s.insert(j, p)),
        forall|c: char|
            #[trigger] first_with(s.insert(j, p), c) == if c as u32 == p.0 as u32 && first_with(s, c) is None {
                Some(p.1)
            } else {
                first_with(s, c)
            },
{
    let t = s.insert(j, p);
    assert forall|a: int, b: int| 0 <= a < b < t.len() implies (t[a].0 as u32) <= (t[b].0 as u32) by {
        if b < j {
        } else if b == j {
        } else if a < j {
            assert(t[b] == s[b - 1]);
        } else if a == j {
            assert(t[b] == s[b - 1]);
        } else {
            assert(t[a] == s[a - 1] && t[b] == s[b - 1]);
        }
    }
    assert forall|c: char|
        #[trigger] first_with(t, c) == if c as u32 == p.0 as u32 && first_with(s, c) is None {
            Some(p.1)
        } else {
            first_with(s, c)
        } by {
        let pre = s.take(j);
        let post = s.skip(j);
        assert(t =~= pre + (seq![p] + post));
        assert(s =~= pre + post);
        lemma_first_with_concat(pre, seq![p] + post, c);
        lemma_first_with_concat(pre, post, c);
        assert((seq![p] + post).drop_first() =~= post);
        if c as u32 == p.0 as u32 {
            assert forall|i: int| 0 <= i < post.len() implies (#[trigger] post[i]).0 as u32 != c as u32 by {
                assert(post[i] == s[j + i]);
            }
            lemma_first_with_absent(post, c);
        }
    }
}

/// In pairs ordered by source, the lower bound of `c` decides the lookup.
proof fn lemma_lower_bound(s: Seq<(char, Seq<char>)>, lb: int, c: char)
    requires
        sorted_by_source(s),
        0 <= lb <= s.len(),
        forall|i: int| 0 <= i < lb ==> ((#[trigger] s[i]).0 as u32) < (c as u32),
        forall|i: int| lb <= i < s.len() ==> (#[trigger] s[i]).0 as u32 >= c as u32,
    ensures
        first_with(s, c) == if lb < s.len() && s[lb].0 as u32 == c as u32 {
            Some(s[lb].1)
        } else {
            None
        },
{
    let pre = s.take(lb);
    let post = s.skip(lb);
    assert(s =~= pre + post);
    lemma_first_with_concat(pre, post, c);
    assert forall|i: int| 0 <= i < pre.len() implies (#[trigger] pre[i]).0 as u32 != c as u32 by {
        assert(pre[i] == s[i]);
    }
    lemma_first_with_absent(pre, c);
    if lb < s.len() && s[lb].0 as u32 == c as u32 {
        assert(post[0] == s[lb]);
    } else if lb < s.len() {
        assert forall|i: int| 0 <= i < post.len() implies (#[trigger] post[i]).0 as u32 != c as u32 by {
            assert(post[i] == s[lb + i]);
            if i > 0 {
                assert((s[lb].0 as u32) <= (s[lb + i].0 as u32));
            }
        }
        lemma_first_with_absent(post, c);
    }
}

// ── Index maintenance ───────────────────────────────────────────────
/// A copy of a pair.
fn copy_pair(p: &PairMapping) -> (r: PairMapping)
    ensures
        pair_view(r) == pair_view(*p),
{
    let target = p.target.clone();
    proof {
        assert(target@ =~= p.target@);
    }
    PairMapping { from: p.from, target }
}

/// Insert `p` after every pair whose source is at most its own.
fn insert_pair(all: &mut Vec<PairMapping>, p: PairMapping)
    requires
        sorted_by_source(pair_views(old(all)@)),
    ensures
        sorted_by_source(pair_views(final(all)@)),
        forall|c: char|
            #[trigger] first_with(pair_views(final(all)@), c) == if c as u32 == p.from as u32 && first_with(
                pair_views(old(all)@),
                c,
            ) is None {
                Some(p.target@)
            } else {
                first_with(pair_views(old(all)@), c)
            },
{
    let ghost s = pair_views(all@);
    let key = p.from as u32;
    let mut lo: usize = 0;
    let mut hi: usize = all.len();
    while lo < hi
        invariant
            hi <= all@.len(),
            lo <= hi,
            s == pair_views(all@),
            key == p.from as u32,
            sorted_by_source(s),
            forall|i: int| 0 <= i < lo ==> (#[trigger] s[i]).0 as u32 <= key,
            forall|i: int| hi <= i < s.len() ==> (#[trigger] s[i]).0 as u32 > key,
        decreases hi - lo,
    {
        let mid = lo + (hi - lo) / 2;
        if all[mid].from as u32 <= key {
            proof {
                assert forall|i: int| 0 <= i < mid + 1 implies (#[trigger] s[i]).0 as u32 <= key by {
                    assert(s[mid as int] == pair_view(all@[mid as int]));
                }
            }
            lo = mid + 1;
        } else {
            proof {
                assert forall|i: int| mid <= i < s.len() implies (#[trigger] s[i]).0 as u32 > key by {
                    assert(s[mid as int] == pair_view(all@[mid as int]));
                }
            }
            hi = mid;
        }
    }
    proof {
        lemma_insert_upper(s, lo as int, pair_view(p));
    }
    all.insert(lo, p);
    proof {
        assert(pair_views(all@) =~= s.insert(lo as int, pair_view(p)));
    }
}

/// Index of the first pair whose source is at least `c`.
fn lower_bound(all: &Vec<PairMapping>, c: char) -> (lb: usize)
    requires
        sorted_by_source(pair_views(all@)),
    ensures
        lb <= all@.len(),
        first_with(pair_views(all@), c) == if lb < all@.len() && all@[lb as int].from as u32 == c as u32 {
            Some(all@[lb as int].target@)
        } else {
            None
        },
{
    let ghost s = pair_views(all@);
    let key = c as u32;
    let mut lo: usize = 0;
    let mut hi: usize = all.len();
    while lo < hi
        invariant
            hi <= all@.len(),
            lo <= hi,
            s == pair_views(all@),
            key == c as u32,
            forall|i: int| 0 <= i < lo ==> ((#[trigger] s[i]).0 as u32) < key,
            forall|i: int| hi <= i < s.len() ==> (#[trigger] s[i]).0 as u32 >= key,
            sorted_by_source(s),
        decreases hi - lo,
    {
        let mid = lo + (hi - lo) / 2;
        if (all[mid].from as u32) < key {
            proof {
                assert forall|i: int| 0 <= i < mid + 1 implies ((#[trigger] s[i]).0 as u32) < key by {
                    assert(s[mid as int] == pair_view(all@[mid as int]));
                }
            }
            lo = mid + 1;
        } else {
            proof {
                assert forall|i: int| mid <= i < s.len() implies (#[trigger] s[i]).0 as u32 >= key by {
                    assert(s[mid as int] == pair_view(all@[mid as int]));
                }
            }
            hi = mid;
        }
    }
    proof {
        lemma_lower_bound(s, lo as int, c);
        if lo < all@.len() {
            assert(s[lo as int] == pair_view(all@[lo as int]));
        }
    }
    lo
}

/// Adds one set's ranges and pairs to the indexes.
fn add_to_indexes(
    ranges: &mut Vec<RangeMapping>,
    pairs: &mut Vec<PairMapping>,
    set: &CharMappingSet,
    Ghost(before): Ghost<Seq<CharMappingSet>>,
)
    requires
        old(ranges)@ == flat_ranges(before),
        sorted_by_source(pair_views(old(pairs)@)),
        forall|c: char| #[trigger]
            first_with(pair_views(old(pairs)@), c) == first_with(flat_pairs(before), c),
    ensures
        final(ranges)@ == flat_ranges(before.push(*set)),
        sorted_by_source(pair_views(final(pairs)@)),
        forall|c: char| #[trigger]
            first_with(pair_views(final(pairs)@), c) == first_with(flat_pairs(before.push(*set)), c),
{
    let ghost after = before.push(*set);
    proof {
        assert(after.drop_last() =~= before);
    }
    let nr = set.ranges.len();
    let mut i: usize = 0;
    while i < nr
        invariant
            nr == set.ranges@.len(),
            i <= nr,
            ranges@ == flat_ranges(before) + set.ranges@.take(i as int),
        decreases nr - i,
    {
        ranges.push(set.ranges[i]);
        proof {
            assert(set.ranges@.take(i + 1) =~= set.ranges@.take(i as int).push(set.ranges@[i as int]));
        }
        i += 1;
    }
    proof {
        assert(set.ranges@.take(nr as int) =~= set.ranges@);
    }
    let ghost sp = pair_views(set.pairs@);
    let np = set.pairs.len();
    let mut k: usize = 0;
    while k < np
        invariant
            np == set.pairs@.len(),
            k <= np,
            sp == pair_views(set.pairs@),
            sorted_by_source(pair_views(pairs@)),
            forall|c: char| #[trigger]
                first_with(pair_views(pairs@), c) == first_with(flat_pairs(before) + sp.take(k as int), c),
        decreases np - k,
    {
        let p = copy_pair(&set.pairs[k]);
        let ghost prev = pair_views(pairs@);
        insert_pair(pairs, p);
        proof {
            assert(sp[k as int] == pair_view(set.pairs@[k as int]));
            assert(sp.take(k + 1) =~= sp.take(k as int).push(sp[k as int]));
            assert forall|c: char| #[trigger]
                first_with(pair_views(pairs@), c) == first_with(flat_pairs(before) + sp.take(k + 1), c) by {
                let base = flat_pairs(before) + sp.take(k as int);
                let x = sp[k as int];
                assert(flat_pairs(before) + sp.take(k + 1) =~= base + seq![x]);
                lemma_first_with_concat(base, seq![x], c);
                assert(seq![x].drop_first() =~= Seq::<(char, Seq<char>)>::empty());
                assert(first_with(seq![x].drop_first(), c) is None);
                assert(first_with(seq![x], c) == if x.0 as u32 == c as u32 {
                    Some(x.1)
                } else {
                    None::<Seq<char>>
                });
                assert(first_with(prev, c) == first_with(base, c));
                assert(first_with(pair_views(pairs@), c) == if c as u32 == x.0 as u32 && first_with(prev, c) is None {
                    Some(x.1)
                } else {
                    first_with(prev, c)
                });
            }
        }
        k += 1;
    }
    proof {
        assert(sp.take(np as int) =~= sp);
    }
}

/// The range and pair indexes of `sets`.
fn build_indexes(sets: &Vec<CharMappingSet>) -> (r: (Vec<RangeMapping>, Vec<PairMapping>))
    ensures
        r.0@ == flat_ranges(sets@),
        sorted_by_source(pair_views(r.1@)),
        forall|c: char| #[trigger] first_with(pair_views(r.1@), c) == first_with(flat_pairs(sets@), c),
{
    let mut ranges: Vec<RangeMapping> = Vec::new();
    let mut pairs: Vec<PairMapping> = Vec::new();
    let n = sets.len();
    let mut i: usize = 0;
    proof {
        assert(sets@.take(0) =~= Seq::<CharMappingSet>::empty());
        assert(pair_views(pairs@) =~= Seq::<(char, Seq<char>)>::empty());
    }
    while i < n
        invariant
            n == sets@.len(),
            i <= n,
            ranges@ == flat_ranges(sets@.take(i as int)),
            sorted_by_source(pair_views(pairs@)),
            forall|c: char| #[trigger]
                first_with(pair_views(pairs@), c) == first_with(flat_pairs(sets@.take(i as int)), c),
        decreases n - i,
    {
        add_to_indexes(&mut ranges, &mut pairs, &sets[i], Ghost(sets@.take(i as int)));
        proof {
            assert(sets@.take(i as int).push(sets@[i as int]) =~= sets@.take(i + 1));
        }
        i += 1;
    }
    proof {
        assert(sets@.take(n as int) =~= sets@);
    }
    (ranges, pairs)
}

// ── UnicodeMap ──────────────────────────────────────────────────────
/// Merged mapping database: built-in defaults plus loaded sets.
///
/// Lookup is two-phase: ranges first (linear scan, typically a few), then
/// pairs (binary search by source codepoint).
#[derive(Debug)]
pub struct UnicodeMap {
    sets: Vec<CharMappingSet>,
    /// All pairs of all sets, ordered by source codepoint.
    all_pairs: Vec<PairMapping>,
    /// All ranges of all sets, in order.
    all_ranges: Vec<RangeMapping>,
}

impl UnicodeMap {
    #[verifier::type_invariant]
    spec fn indexes_agree(&self) -> bool {
        &&& self.all_ranges@ == flat_ranges(self.sets@)
        &&& sorted_by_source(pair_views(self.all_pairs@))
        &&& forall|c: char| #[trigger]
            first_with(pair_views(self.all_pairs@), c) == first_with(flat_pairs(self.sets@), c)
    }

    /// The loaded sets, in order.
    pub closed spec fn spec_sets(&self) -> Seq<CharMappingSet> {
        self.sets@
    }

    /// Create a map from an explicit list of sets.
    pub fn from_sets(sets: Vec<CharMappingSet>) -> (m: Self)
        ensures
            m.spec_sets() == sets@,
    {
        let (all_ranges, all_pairs) = build_indexes(&sets);
        UnicodeMap { sets, all_pairs, all_ranges }
    }

    /// Create a map with only the compiled-in built-in mappings.
    pub fn builtin() -> (m: Self)
        ensures
            builtin_sets_spec(m.spec_sets()),
    {
        Self::from_sets(builtin_sets())
    }

    /// Look up a character, returning a single replacement char: `None`
    /// when there is no mapping or its target is several chars.
    pub fn lookup_char(&self, c: char) -> (r: Option<char>)
        ensures
            r == spec_lookup_char(self.spec_sets(), c),
    {
        proof {
            use_type_invariant(self);
        }
        let cp = c as u32;
        let n = self.all_ranges.len();
        let mut i: usize = 0;
        proof {
            assert(self.all_ranges@.skip(0) =~= self.all_ranges@);
        }
        while i < n
            invariant
                n == self.all_ranges@.len(),
                i <= n,
                range_hit(self.all_ranges@, cp) == range_hit(self.all_ranges@.skip(i as int), cp),
                cp == c as u32,
            decreases n - i,
        {
            let r = self.all_ranges[i];
            proof {
                assert(self.all_ranges@.skip(i as int)[0] == r);
                assert(self.all_ranges@.skip(i as int).drop_first() =~= self.all_ranges@.skip(i + 1));
            }
            if cp >= r.from_start && cp <= r.from_end {
                #[verifier::truncate]
                let target = (cp as i64 + r.offset as i64) as u32;
                proof {
                    use_type_invariant(self);
                    assert(range_hit(self.all_ranges@.skip(i as int), cp) == Some(r));
                    assert(target == range_target(r, cp));
                    assert(range_hit(flat_ranges(self.sets@), cp) == Some(r));
                    assert(spec_lookup(self.sets@, c) == if is_scalar(target) {
                        Some(seq![target as char])
                    } else {
                        None
                    });
                }
                return char_from_u32(target);
            }
            i += 1;
        }
        proof {
            assert(self.all_ranges@.skip(n as int) =~= Seq::<RangeMapping>::empty());
        }
        let lb = lower_bound(&self.all_pairs, c);
        if lb < self.all_pairs.len() && self.all_pairs[lb].from as u32 == c as u32 {
            let t = &self.all_pairs[lb].target;
            if t.len() == 1 {
                Some(t[0])
            } else {
                None
            }
        } else {
            None
        }
    }

    /// Look up a character, appending its replacement chars to `out`.
    /// Returns `true` if a mapping was found (and chars were pushed).
    pub fn lookup_into(&self, c: char, out: &mut Vec<char>) -> (found: bool)
        ensures
            found == spec_lookup(self.spec_sets(), c) is Some,
            final(out)@ == old(out)@ + match spec_lookup(self.spec_sets(), c) {
                Some(t) => t,
                None => Seq::empty(),
            },
    {
        proof {
            use_type_invariant(self);
        }
        let cp = c as u32;
        let n = self.all_ranges.len();
        let mut i: usize = 0;
        proof {
            assert(self.all_ranges@.skip(0) =~= self.all_ranges@);
        }
        while i < n
            invariant
                n == self.all_ranges@.len(),
                i <= n,
                range_hit(self.all_ranges@, cp) == range_hit(self.all_ranges@.skip(i as int), cp),
                cp == c as u32,
                out@ == old(out)@,
            decreases n - i,
        {
            let r = self.all_ranges[i];
            proof {
                assert(self.all_ranges@.skip(i as int)[0] == r);
                assert(self.all_ranges@.skip(i as int).drop_first() =~= self.all_ranges@.skip(i + 1));
            }
            if cp >= r.from_start && cp <= r.from_end {
                #[verifier::truncate]
                let target = (cp as i64 + r.offset as i64) as u32;
                proof {
                    use_type_invariant(self);
                    assert(range_hit(self.all_ranges@.skip(i as int), cp) == Some(r));
                    assert(target == range_target(r, cp));
                }
                match char_from_u32(target) {
                    Some(tc) => {
                        out.push(tc);
                        return true;
                    },
                    None => {
                        proof {
                            assert(old(out)@ + Seq::<char>::empty() =~= old(out)@);
                        }
                        return false;
                    },
                }
            }
            i += 1;
        }
        proof {
            assert(self.all_ranges@.skip(n as int) =~= Seq::<RangeMapping>::empty());
        }
        let lb = lower_bound(&self.all_pairs, c);
        if lb < self.all_pairs.len() && self.all_pairs[lb].from as u32 == c as u32 {
            let t = &self.all_pairs[lb].target;
            let m = t.len();
            let mut k: usize = 0;
            while k < m
                invariant
                    m == t@.len(),
                    k <= m,
                    out@ == old(out)@ + t@.take(k as int),
                decreases m - k,
            {
                out.push(t[k]);
                proof {
                    assert(t@.take(k + 1) =~= t@.take(k as int).push(t@[k as int]));
                }
                k += 1;
            }
            proof {
                assert(t@.take(m as int) =~= t@);
            }
            true
        } else {
            proof {
                assert(old(out)@ + Seq::<char>::empty() =~= old(out)@);
            }
            false
        }
    }

    /// Returns the number of mapping sets loaded.
    pub fn set_count(&self) -> (n: usize)
        ensures
            n == self.spec_sets().len(),
    {
        self.sets.len()
    }

    /// Returns a slice of all loaded mapping sets.
    pub fn sets(&self) -> (s: &[CharMappingSet])
        ensures
            s@ == self.spec_sets(),
    {
        self.sets.as_slice()
    }

    /// Merge another set into this map. A set whose type is already loaded
    /// is rejected: `Err` holds its type name and the map is unchanged.
    pub fn merge_set(&mut self, set: CharMappingSet) -> (r: Result<(), String>)
        ensures
            has_set(old(self).spec_sets(), set.set_type@) ==> (r matches Err(e) && e@
                == set.set_type@ && final(self).spec_sets() == old(self).spec_sets()),
            !has_set(old(self).spec_sets(), set.set_type@) ==> r is Ok && final(self).spec_sets()
                == old(self).spec_sets().push(set),
    {
        proof {
            use_type_invariant(&*self);
        }
        let n = self.sets.len();
        let mut i: usize = 0;
        while i < n
            invariant
                n == self.sets@.len(),
                i <= n,
                forall|j: int| 0 <= j < i ==> (#[trigger] self.sets@[j]).set_type@ != set.set_type@,
                self.sets@ == old(self).sets@,
                self.all_pairs@ == old(self).all_pairs@,
                self.all_ranges@ == old(self).all_ranges@,
            decreases n - i,
        {
            if self.sets[i].set_type == set.set_type {
                return Err(set.set_type);
            }
            i += 1;
        }
        let mut db = UnicodeMap { sets: Vec::new(), all_pairs: Vec::new(), all_ranges: Vec::new() };
        proof {
            assert(pair_views(db.all_pairs@) =~= Seq::<(char, Seq<char>)>::empty());
        }
        std::mem::swap(&mut db, self);
        proof {
            use_type_invariant(&db);
        }
        let UnicodeMap { mut sets, mut all_pairs, mut all_ranges } = db;
        add_to_indexes(&mut all_ranges, &mut all_pairs, &set, Ghost(sets@));
        sets.push(set);
        *self = UnicodeMap { sets, all_pairs, all_ranges };
        Ok(())
    }

    /// Remove the first set of type `set_type`. Returns `true` if one was
    /// found and removed.
    pub fn remove_set(&mut self, set_type: &str) -> (found: bool)
        ensures
            found == has_set(old(self).spec_sets(), set_type@),
            !found ==> final(self).spec_sets() == old(self).spec_sets(),
            found ==> exists|i: int|
                0 <= i < old(self).spec_sets().len() && old(self).spec_sets()[i].set_type@ == set_type@
                    && (forall|j: int| 0 <= j < i ==> (#[trigger] old(self).spec_sets()[j]).set_type@
                    != set_type@) && final(self).spec_sets() == old(self).spec_sets().remove(i),
    {
        let n = self.sets.len();
        let mut i: usize = 0;
        while i < n
            invariant
                n == self.sets@.len(),
                i <= n,
                forall|j: int| 0 <= j < i ==> (#[trigger] self.sets@[j]).set_type@ != set_type@,
                self.sets@ == old(self).sets@,
                self.all_pairs@ == old(self).all_pairs@,
                self.all_ranges@ == old(self).all_ranges@,
            decreases n - i,
        {
            if spells(&self.sets[i].set_type, set_type) {
                let ghost old_sets = self.sets@;
                proof {
                    assert(old_sets[i as int].set_type@ == set_type@);
                    assert(old(self).spec_sets()[i as int].set_type@ == set_type@);
                }
                let mut db = UnicodeMap { sets: Vec::new(), all_pairs: Vec::new(), all_ranges: Vec::new() };
                proof {
                    assert(pair_views(db.all_pairs@) =~= Seq::<(char, Seq<char>)>::empty());
                }
                std::mem::swap(&mut db, self);
                let UnicodeMap { mut sets, all_pairs: _, all_ranges: _ } = db;
                proof {
                    assert(sets@ == old_sets);
                }
                sets.remove(i);
                // Rebuild the flattened indexes.
                let (all_ranges, all_pairs) = build_indexes(&sets);
                *self = UnicodeMap { sets, all_pairs, all_ranges };
                return true;
            }
            i += 1;
        }
        false
    }
}

/// Merging a set never changes what a range of the earlier sets maps: the
/// earlier ranges are still scanned first.
pub proof fn law_merge_keeps_range_hits(sets: Seq<CharMappingSet>, set: CharMappingSet, c: char)
    requires
        range_hit(flat_ranges(sets), c as u32) is Some,
    ensures
        spec_lookup(sets.push(set), c) == spec_lookup(sets, c),
{
    assert(sets.push(set).drop_last() =~= sets);
    lemma_range_hit_concat(flat_ranges(sets), set.ranges@, c as u32);
}

/// Merging a set without ranges never changes the mapping of a char that
/// was already mapped.
pub proof fn law_merge_pairs_additive(sets: Seq<CharMappingSet>, set: CharMappingSet, c: char)
    requires
        set.ranges@.len() == 0,
        spec_lookup(sets, c) is Some,
    ensures
        spec_lookup(sets.push(set), c) == spec_lookup(sets, c),
{
    assert(sets.push(set).drop_last() =~= sets);
    assert(flat_ranges(sets.push(set)) =~= flat_ranges(sets));
    lemma_first_with_concat(flat_pairs(sets), pair_views(set.pairs@), c);
}

/// A char with a single replacement char is replaced by exactly that char.
pub proof fn law_lookup_char_is_lookup(sets: Seq<CharMappingSet>, c: char, x: char)
    requires
        spec_lookup_char(sets, c) == Some(x),
    ensures
        spec_lookup(sets, c) == Some(seq![x]),
{
    let t = spec_lookup(sets, c)->0;
    assert(t =~= seq![x]);
}

/// Whether every pair of every set has a non-empty target (as mapping
/// files and the built-in sets guarantee).
pub open spec fn targets_non_empty(sets: Seq<CharMappingSet>) -> bool {
    forall|i: int, j: int|
        0 <= i < sets.len() && 0 <= j < sets[i].pairs@.len() ==> (#[trigger] sets[i].pairs@[j]).target@.len() > 0
}

proof fn lemma_first_with_in(ps: Seq<(char, Seq<char>)>, c: char)
    requires
        forall|i: int| 0 <= i < ps.len() ==> (#[trigger] ps[i]).1.len() > 0,
    ensures
        first_with(ps, c) matches Some(t) ==> t.len() > 0,
    decreases ps.len(),
{
    if ps.len() > 0 {
        assert(ps[0].1.len() > 0);
        assert forall|i: int| 0 <= i < ps.drop_first().len() implies (#[trigger] ps.drop_first()[i]).1.len() > 0 by {
            assert(ps.drop_first()[i] == ps[i + 1]);
        }
        lemma_first_with_in(ps.drop_first(), c);
    }
}

proof fn lemma_flat_pairs_non_empty(sets: Seq<CharMappingSet>)
    requires
        targets_non_empty(sets),
    ensures
        forall|i: int| 0 <= i < flat_pairs(sets).len() ==> (#[trigger] flat_pairs(sets)[i]).1.len() > 0,
    decreases sets.len(),
{
    if sets.len() > 0 {
        let init = sets.drop_last();
        assert forall|i: int, j: int|
            0 <= i < init.len() && 0 <= j < init[i].pairs@.len() implies (#[trigger] init[i].pairs@[j]).target@.len() > 0 by {
            assert(init[i] == sets[i]);
        }
        lemma_flat_pairs_non_empty(init);
        let a = flat_pairs(init);
        let b = pair_views(sets.last().pairs@);
        assert forall|i: int| 0 <= i < (a + b).len() implies (#[trigger] (a + b)[i]).1.len() > 0 by {
            if i >= a.len() {
                assert((a + b)[i] == b[i - a.len()]);
                assert(sets[sets.len() - 1].pairs@[i - a.len()].target@.len() > 0);
            } else {
                assert((a + b)[i] == a[i]);
            }
        }
    }
}

/// When every target is non-empty, a char that has a replacement is
/// replaced by at least one char.
pub proof fn law_lookup_target_non_empty(sets: Seq<CharMappingSet>, c: char)
    requires
        targets_non_empty(sets),
    ensures
        spec_lookup(sets, c) matches Some(t) ==> t.len() > 0,
{
    lemma_flat_pairs_non_empty(sets);
    lemma_first_with_in(flat_pairs(sets), c);
}

proof fn lemma_first_with_at(ps: Seq<(char, Seq<char>)>, i: int, c: char)
    requires
        0 <= i < ps.len(),
        ps[i].0 as u32 == c as u32,
        forall|j: int| 0 <= j < i ==> (#[trigger] ps[j]).0 as u32 != c as u32,
    ensures
        first_with(ps, c) == Some(ps[i].1),
    decreases i,
{
    if i > 0 {
        assert forall|j: int| 0 <= j < i - 1 implies (#[trigger] ps.drop_first()[j]).0 as u32 != c as u32 by {
            assert(ps.drop_first()[j] == ps[j + 1]);
        }
        assert(ps[0].0 as u32 != c as u32);
        lemma_first_with_at(ps.drop_first(), i - 1, c);
    }
}

/// Merging a set makes its pair visible to lookups when nothing maps the
/// pair's source first: no range of the merged map covers it, no earlier
/// set has a pair for it, and no earlier pair of the set has the same
/// source.
pub proof fn law_merge_makes_pair_visible(sets: Seq<CharMappingSet>, set: CharMappingSet, i: int)
    requires
        0 <= i < set.pairs@.len(),
        range_hit(flat_ranges(sets.push(set)), set.pairs@[i].from as u32) is None,
        first_with(flat_pairs(sets), set.pairs@[i].from) is None,
        forall|j: int| 0 <= j < i ==> (#[trigger] set.pairs@[j]).from as u32 != set.pairs@[i].from as u32,
    ensures
        spec_lookup(sets.push(set), set.pairs@[i].from) == Some(set.pairs@[i].target@),
{
    let c = set.pairs@[i].from;
    assert(sets.push(set).drop_last() =~= sets);
    let pv = pair_views(set.pairs@);
    assert forall|j: int| 0 <= j < i implies (#[trigger] pv[j]).0 as u32 != c as u32 by {
        assert(pv[j] == pair_view(set.pairs@[j]));
    }
    lemma_first_with_at(pv, i, c);
    lemma_first_with_concat(flat_pairs(sets), pv, c);
}

/// A single-char pair.
fn pair1(from: char, t: char) -> (p: PairMapping)
    ensures
        pair_view(p) == (from, seq![t]),
{
    let mut target: Vec<char> = Vec::new();
    target.push(t);
    proof {
        assert(target@ =~= seq![t]);
    }
    PairMapping { from, target }
}

/// A two-char pair.
fn pair2(from: char, t0: char, t1: char) -> (p: PairMapping)
    ensures
        pair_view(p) == (from, seq![t0, t1]),
{
    let mut target: Vec<char> = Vec::new();
    target.push(t0);
    target.push(t1);
    proof {
        assert(target@ =~= seq![t0, t1]);
    }
    PairMapping { from, target }
}

/// A three-char pair.
fn pair3(from: char, t0: char, t1: char, t2: char) -> (p: PairMapping)
    ensures
        pair_view(p) == (from, seq![t0, t1, t2]),
{
    let mut target: Vec<char> = Vec::new();
    target.push(t0);
    target.push(t1);
    target.push(t2);
    proof {
        assert(target@ =~= seq![t0, t1, t2]);
    }
    PairMapping { from, target }
}

// ── Built-in mappings ───────────────────────────────────────────────
/// The five compiled-in security sets, in order.
pub open spec fn builtin_sets_spec(sets: Seq<CharMappingSet>) -> bool {
    &&& sets.len() == 5
    &&& builtin_fullwidth_ascii_spec(sets[0])
    &&& builtin_math_latin_bold_spec(sets[1])
    &&& builtin_latin_ligatures_spec(sets[2])
    &&& builtin_enclosed_circled_letters_spec(sets[3])
    &&& builtin_superscript_subscript_spec(sets[4])
}

/// The compiled-in security mapping sets.
fn builtin_sets() -> (v: Vec<CharMappingSet>)
    ensures
        builtin_sets_spec(v@),
{
    let mut v: Vec<CharMappingSet> = Vec::new();
    v.push(builtin_fullwidth_ascii());
    v.push(builtin_math_latin_bold());
    v.push(builtin_latin_ligatures());
    v.push(builtin_enclosed_circled_letters());
    v.push(builtin_superscript_subscript());
    v
}

/// The built-in `fullwidth_ascii` set.
pub open spec fn builtin_fullwidth_ascii_spec(s: CharMappingSet) -> bool {
    &&& s.set_type@ == "fullwidth_ascii"@
    &&& s.description@ == "Fullwidth ASCII and symbols → standard equivalents"@
    &&& s.direction == Direction::Narrowing
    &&& tag_views(s.tags@) == seq!["security"@, "ascii-normalize"@]
    &&& s.ranges@ == seq![RangeMapping { from_start: 0xFF01, from_end: 0xFF5E, offset: -65248i32 }]
    &&& pair_views(s.pairs@) == seq![('\u{FFE0}', seq!['\u{A2}']), ('\u{FFE1}', seq!['\u{A3}']), ('\u{FFE2}', seq!['\u{AC}']), ('\u{FFE3}', seq!['\u{AF}']), ('\u{FFE4}', seq!['\u{A6}']), ('\u{FFE5}', seq!['\u{A5}']), ('\u{FFE6}', seq!['\u{20A9}'])]
}

/// The built-in `math_latin_bold` set.
pub open spec fn builtin_math_latin_bold_spec(s: CharMappingSet) -> bool {
    &&& s.set_type@ == "math_latin_bold"@
    &&& s.description@ == "Mathematical bold Latin → plain ASCII"@
    &&& s.direction == Direction::Narrowing
    &&& tag_views(s.tags@) == seq!["security"@, "ascii-normalize"@]
    &&& s.ranges@ == seq![RangeMapping { from_start: 0x1D400, from_end: 0x1D419, offset: -119743i32 }] + seq![RangeMapping { from_start: 0x1D41A, from_end: 0x1D433, offset: -119737i32 }]
    &&& pair_views(s.pairs@) == Seq::<(char, Seq<char>)>::empty()
}

/// The built-in `latin_ligatures` set.
pub open spec fn builtin_latin_ligatures_spec(s: CharMappingSet) -> bool {
    &&& s.set_type@ == "latin_ligatures"@
    &&& s.description@ == "Latin ligatures → ASCII letter sequences"@
    &&& s.direction == Direction::Neutral
    &&& tag_views(s.tags@) == seq!["security"@, "ascii-normalize"@]
    &&& s.ranges@ == Seq::<RangeMapping>::empty()
    &&& pair_views(s.pairs@) == seq![('\u{FB00}', seq!['f', 'f']), ('\u{FB01}', seq!['f', 'i']), ('\u{FB02}', seq!['f', 'l']), ('\u{FB03}', seq!['f', 'f', 'i']), ('\u{FB04}', seq!['f', 'f', 'l']), ('\u{FB05}', seq!['s', 't']), ('\u{FB06}', seq!['s', 't'])]
}

/// The built-in `enclosed_circled_letters` set.
pub open spec fn builtin_enclosed_circled_letters_spec(s: CharMappingSet) -> bool {
    &&& s.set_type@ == "enclosed_circled_letters"@
    &&& s.description@ == "Circled Latin letters → plain ASCII"@
    &&& s.direction == Direction::Narrowing
    &&& tag_views(s.tags@) == seq!["security"@, "ascii-normalize"@]
    &&& s.ranges@ == seq![RangeMapping { from_start: 0x24B6, from_end: 0x24CF, offset: -9333i32 }] + seq![RangeMapping { from_start: 0x24D0, from_end: 0x24E9, offset: -9327i32 }]
    &&& pair_views(s.pairs@) == Seq::<(char, Seq<char>)>::empty()
}

/// The built-in `superscript_subscript` set.
pub open spec fn builtin_superscript_subscript_spec(s: CharMappingSet) -> bool {
    &&& s.set_type@ == "superscript_subscript"@
    &&& s.description@ == "Superscript/subscript forms → plain ASCII"@
    &&& s.direction == Direction::Neutral
    &&& tag_views(s.tags@) == seq!["security"@, "ascii-normalize"@]
    &&& s.ranges@ == seq![RangeMapping { from_start: 0x2074, from_end: 0x2079, offset: -8256i32 }] + seq![RangeMapping { from_start: 0x2080, from_end: 0x2089, offset: -8272i32 }]
    &&& pair_views(s.pairs@) == seq![('\u{2070}', seq!['0']), ('\u{B9}', seq!['1']), ('\u{B2}', seq!['2']), ('\u{B3}', seq!['3']), ('\u{207A}', seq!['+']), ('\u{207B}', seq!['-']), ('\u{207C}', seq!['=']), ('\u{207D}', seq!['(']), ('\u{207E}', seq![')']), ('\u{2071}', seq!['i']), ('\u{207F}', seq!['n']), ('\u{208A}', seq!['+']), ('\u{208B}', seq!['-']), ('\u{208C}', seq!['=']), ('\u{208D}', seq!['(']), ('\u{208E}', seq![')']), ('\u{2090}', seq!['a']), ('\u{2091}', seq!['e']), ('\u{2092}', seq!['o']), ('\u{2093}', seq!['x']), ('\u{2094}', seq!['\u{259}']), ('\u{2095}', seq!['h']), ('\u{2096}', seq!['k']), ('\u{2097}', seq!['l']), ('\u{2098}', seq!['m']), ('\u{2099}', seq!['n']), ('\u{209A}', seq!['p']), ('\u{209B}', seq!['s']), ('\u{209C}', seq!['t'])]
}
/// The built-in `fullwidth_ascii` set.
fn builtin_fullwidth_ascii() -> (s: CharMappingSet)
    ensures
        builtin_fullwidth_ascii_spec(s),
{
    let mut tags: Vec<String> = Vec::new();
    tags.push("security".to_owned());
    tags.push("ascii-normalize".to_owned());
    let mut ranges: Vec<RangeMapping> = Vec::new();
    ranges.push(RangeMapping { from_start: 0xFF01, from_end: 0xFF5E, offset: -65248 });
    let mut pairs: Vec<PairMapping> = Vec::new();
    pairs.push(pair1('\u{FFE0}', '\u{A2}'));
    pairs.push(pair1('\u{FFE1}', '\u{A3}'));
    pairs.push(pair1('\u{FFE2}', '\u{AC}'));
    pairs.push(pair1('\u{FFE3}', '\u{AF}'));
    pairs.push(pair1('\u{FFE4}', '\u{A6}'));
    pairs.push(pair1('\u{FFE5}', '\u{A5}'));
    pairs.push(pair1('\u{FFE6}', '\u{20A9}'));
    let s = CharMappingSet {
        set_type: "fullwidth_ascii".to_owned(),
        description: "Fullwidth ASCII and symbols → standard equivalents".to_owned(),
        direction: Direction::Narrowing,
        tags,
        ranges,
        pairs,
    };
    proof {
        assert(tag_views(s.tags@) =~= seq!["security"@, "ascii-normalize"@]);
        assert(s.ranges@ =~= seq![RangeMapping { from_start: 0xFF01, from_end: 0xFF5E, offset: -65248i32 }]);
        assert(pair_views(s.pairs@) =~= seq![('\u{FFE0}', seq!['\u{A2}']), ('\u{FFE1}', seq!['\u{A3}']), ('\u{FFE2}', seq!['\u{AC}']), ('\u{FFE3}', seq!['\u{AF}']), ('\u{FFE4}', seq!['\u{A6}']), ('\u{FFE5}', seq!['\u{A5}']), ('\u{FFE6}', seq!['\u{20A9}'])]);
    }
    s
}

/// The built-in `math_latin_bold` set.
fn builtin_math_latin_bold() -> (s: CharMappingSet)
    ensures
        builtin_math_latin_bold_spec(s),
{
    let mut tags: Vec<String> = Vec::new();
    tags.push("security".to_owned());
    tags.push("ascii-normalize".to_owned());
    let mut ranges: Vec<RangeMapping> = Vec::new();
    ranges.push(RangeMapping { from_start: 0x1D400, from_end: 0x1D419, offset: -119743 });
    ranges.push(RangeMapping { from_start: 0x1D41A, from_end: 0x1D433, offset: -119737 });
    let mut pairs: Vec<PairMapping> = Vec::new();
    let s = CharMappingSet {
        set_type: "math_latin_bold".to_owned(),
        description: "Mathematical bold Latin → plain ASCII".to_owned(),
        direction: Direction::Narrowing,
        tags,
        ranges,
        pairs,
    };
    proof {
        assert(tag_views(s.tags@) =~= seq!["security"@, "ascii-normalize"@]);
        assert(s.ranges@ =~= seq![RangeMapping { from_start: 0x1D400, from_end: 0x1D419, offset: -119743i32 }] + seq![RangeMapping { from_start: 0x1D41A, from_end: 0x1D433, offset: -119737i32 }]);
        assert(pair_views(s.pairs@) =~= Seq::<(char, Seq<char>)>::empty());
    }
    s
}

/// The built-in `latin_ligatures` set.
fn builtin_latin_ligatures() -> (s: CharMappingSet)
    ensures
        builtin_latin_ligatures_spec(s),
{
    let mut tags: Vec<String> = Vec::new();
    tags.push("security".to_owned());
    tags.push("ascii-normalize".to_owned());
    let mut ranges: Vec<RangeMapping> = Vec::new();
    let mut pairs: Vec<PairMapping> = Vec::new();
    pairs.push(pair2('\u{FB00}', 'f', 'f'));
    pairs.push(pair2('\u{FB01}', 'f', 'i'));
    pairs.push(pair2('\u{FB02}', 'f', 'l'));
    pairs.push(pair3('\u{FB03}', 'f', 'f', 'i'));
    pairs.push(pair3('\u{FB04}', 'f', 'f', 'l'));
    pairs.push(pair2('\u{FB05}', 's', 't'));
    pairs.push(pair2('\u{FB06}', 's', 't'));
    let s = CharMappingSet {
        set_type: "latin_ligatures".to_owned(),
        description: "Latin ligatures → ASCII letter sequences".to_owned(),
        direction: Direction::Neutral,
        tags,
        ranges,
        pairs,
    };
    proof {
        assert(tag_views(s.tags@) =~= seq!["security"@, "ascii-normalize"@]);
        assert(s.ranges@ =~= Seq::<RangeMapping>::empty());
        assert(pair_views(s.pairs@) =~= seq![('\u{FB00}', seq!['f', 'f']), ('\u{FB01}', seq!['f', 'i']), ('\u{FB02}', seq!['f', 'l']), ('\u{FB03}', seq!['f', 'f', 'i']), ('\u{FB04}', seq!['f', 'f', 'l']), ('\u{FB05}', seq!['s', 't']), ('\u{FB06}', seq!['s', 't'])]);
    }
    s
}

/// The built-in `enclosed_circled_letters` set.
fn builtin_enclosed_circled_letters() -> (s: CharMappingSet)
    ensures
        builtin_enclosed_circled_letters_spec(s),
{
    let mut tags: Vec<String> = Vec::new();
    tags.push("security".to_owned());
    tags.push("ascii-normalize".to_owned());
    let mut ranges: Vec<RangeMapping> = Vec::new();
    ranges.push(RangeMapping { from_start: 0x24B6, from_end: 0x24CF, offset: -9333 });
    ranges.push(RangeMapping { from_start: 0x24D0, from_end: 0x24E9, offset: -9327 });
    let mut pairs: Vec<PairMapping> = Vec::new();
    let s = CharMappingSet {
        set_type: "enclosed_circled_letters".to_owned(),
        description: "Circled Latin letters → plain ASCII".to_owned(),
        direction: Direction::Narrowing,
        tags,
        ranges,
        pairs,
    };
    proof {
        assert(tag_views(s.tags@) =~= seq!["security"@, "ascii-normalize"@]);
        assert(s.ranges@ =~= seq![RangeMapping { from_start: 0x24B6, from_end: 0x24CF, offset: -9333i32 }] + seq![RangeMapping { from_start: 0x24D0, from_end: 0x24E9, offset: -9327i32 }]);
        assert(pair_views(s.pairs@) =~= Seq::<(char, Seq<char>)>::empty());
    }
    s
}

/// The built-in `superscript_subscript` set.
fn builtin_superscript_subscript() -> (s: CharMappingSet)
    ensures
        builtin_superscript_subscript_spec(s),
{
    let mut tags: Vec<String> = Vec::new();
    tags.push("security".to_owned());
    tags.push("ascii-normalize".to_owned());
    let mut ranges: Vec<RangeMapping> = Vec::new();
    ranges.push(RangeMapping { from_start: 0x2074, from_end: 0x2079, offset: -8256 });
    ranges.push(RangeMapping { from_start: 0x2080, from_end: 0x2089, offset: -8272 });
    let mut pairs: Vec<PairMapping> = Vec::new();
    pairs.push(pair1('\u{2070}', '0'));
    pairs.push(pair1('\u{B9}', '1'));
    pairs.push(pair1('\u{B2}', '2'));
    pairs.push(pair1('\u{B3}', '3'));
    pairs.push(pair1('\u{207A}', '+'));
    pairs.push(pair1('\u{207B}', '-'));
    pairs.push(pair1('\u{207C}', '='));
    pairs.push(pair1('\u{207D}', '('));
    pairs.push(pair1('\u{207E}', ')'));
    pairs.push(pair1('\u{2071}', 'i'));
    pairs.push(pair1('\u{207F}', 'n'));
    pairs.push(pair1('\u{208A}', '+'));
    pairs.push(pair1('\u{208B}', '-'));
    pairs.push(pair1('\u{208C}', '='));
    pairs.push(pair1('\u{208D}', '('));
    pairs.push(pair1('\u{208E}', ')'));
    pairs.push(pair1('\u{2090}', 'a'));
    pairs.push(pair1('\u{2091}', 'e'));
    pairs.push(pair1('\u{2092}', 'o'));
    pairs.push(pair1('\u{2093}', 'x'));
    pairs.push(pair1('\u{2094}', '\u{259}'));
    pairs.push(pair1('\u{2095}', 'h'));
    pairs.push(pair1('\u{2096}', 'k'));
    pairs.push(pair1('\u{2097}', 'l'));
    pairs.push(pair1('\u{2098}', 'm'));
    pairs.push(pair1('\u{2099}', 'n'));
    pairs.push(pair1('\u{209A}', 'p'));
    pairs.push(pair1('\u{209B}', 's'));
    pairs.push(pair1('\u{209C}', 't'));
    let s = CharMappingSet {
        set_type: "superscript_subscript".to_owned(),
        description: "Superscript/subscript forms → plain ASCII".to_owned(),
        direction: Direction::Neutral,
        tags,
        ranges,
        pairs,
    };
    proof {
        assert(tag_views(s.tags@) =~= seq!["security"@, "ascii-normalize"@]);
        assert(s.ranges@ =~= seq![RangeMapping { from_start: 0x2074, from_end: 0x2079, offset: -8256i32 }] + seq![RangeMapping { from_start: 0x2080, from_end: 0x2089, offset: -8272i32 }]);
        assert(pair_views(s.pairs@) =~= seq![('\u{2070}', seq!['0']), ('\u{B9}', seq!['1']), ('\u{B2}', seq!['2']), ('\u{B3}', seq!['3']), ('\u{207A}', seq!['+']), ('\u{207B}', seq!['-']), ('\u{207C}', seq!['=']), ('\u{207D}', seq!['(']), ('\u{207E}', seq![')']), ('\u{2071}', seq!['i']), ('\u{207F}', seq!['n']), ('\u{208A}', seq!['+']), ('\u{208B}', seq!['-']), ('\u{208C}', seq!['=']), ('\u{208D}', seq!['(']), ('\u{208E}', seq![')']), ('\u{2090}', seq!['a']), ('\u{2091}', seq!['e']), ('\u{2092}', seq!['o']), ('\u{2093}', seq!['x']), ('\u{2094}', seq!['\u{259}']), ('\u{2095}', seq!['h']), ('\u{2096}', seq!['k']), ('\u{2097}', seq!['l']), ('\u{2098}', seq!['m']), ('\u{2099}', seq!['n']), ('\u{209A}', seq!['p']), ('\u{209B}', seq!['s']), ('\u{209C}', seq!['t'])]);
    }
    s
}
/// The ranges of the built-in sets, in order.
proof fn lemma_builtin_ranges(sets: Seq<CharMappingSet>)
    requires
        builtin_sets_spec(sets),
    ensures
        flat_ranges(sets) == seq![
            RangeMapping { from_start: 0xFF01, from_end: 0xFF5E, offset: -65248i32 },
            RangeMapping { from_start: 0x1D400, from_end: 0x1D419, offset: -119743i32 },
            RangeMapping { from_start: 0x1D41A, from_end: 0x1D433, offset: -119737i32 },
            RangeMapping { from_start: 0x24B6, from_end: 0x24CF, offset: -9333i32 },
            RangeMapping { from_start: 0x24D0, from_end: 0x24E9, offset: -9327i32 },
            RangeMapping { from_start: 0x2074, from_end: 0x2079, offset: -8256i32 },
            RangeMapping { from_start: 0x2080, from_end: 0x2089, offset: -8272i32 },
        ],
{
    let s4 = sets.drop_last();
    let s3 = s4.drop_last();
    let s2 = s3.drop_last();
    let s1 = s2.drop_last();
    let s0 = s1.drop_last();
    assert(s0.len() == 0);
    assert(s1.last() == sets[0]);
    assert(s2.last() == sets[1]);
    assert(s3.last() == sets[2]);
    assert(s4.last() == sets[3]);
    assert(sets.last() == sets[4]);
    assert(flat_ranges(s0) == Seq::<RangeMapping>::empty());
    assert(flat_ranges(s1) == flat_ranges(s0) + sets[0].ranges@);
    assert(flat_ranges(s2) == flat_ranges(s1) + sets[1].ranges@);
    assert(flat_ranges(s3) == flat_ranges(s2) + sets[2].ranges@);
    assert(flat_ranges(s4) == flat_ranges(s3) + sets[3].ranges@);
    assert(flat_ranges(sets) == flat_ranges(s4) + sets[4].ranges@);
    assert(flat_ranges(sets) =~= seq![
        RangeMapping { from_start: 0xFF01, from_end: 0xFF5E, offset: -65248i32 },
        RangeMapping { from_start: 0x1D400, from_end: 0x1D419, offset: -119743i32 },
        RangeMapping { from_start: 0x1D41A, from_end: 0x1D433, offset: -119737i32 },
        RangeMapping { from_start: 0x24B6, from_end: 0x24CF, offset: -9333i32 },
        RangeMapping { from_start: 0x24D0, from_end: 0x24E9, offset: -9327i32 },
        RangeMapping { from_start: 0x2074, from_end: 0x2079, offset: -8256i32 },
        RangeMapping { from_start: 0x2080, from_end: 0x2089, offset: -8272i32 },
    ]);
}

/// The first range of `rs` that contains `cp` is the one at `i` when no
/// range before it contains `cp`.
proof fn lemma_range_hit_at(rs: Seq<RangeMapping>, cp: u32, i: int)
    requires
        0 <= i < rs.len(),
        rs[i].from_start <= cp <= rs[i].from_end,
        forall|j: int| 0 <= j < i ==> !(rs[j].from_start <= cp <= #[trigger] rs[j].from_end),
    ensures
        range_hit(rs, cp) == Some(rs[i]),
    decreases i,
{
    if i > 0 {
        let t = rs.drop_first();
        assert forall|j: int| 0 <= j < i - 1 implies !(t[j].from_start <= cp <= #[trigger] t[j].from_end) by {
            assert(t[j] == rs[j + 1]);
        }
        lemma_range_hit_at(t, cp, i - 1);
        assert(!(rs[0].from_start <= cp <= rs[0].from_end));
    }
}

/// The built-in map normalises look-alike forms to plain ASCII, keeping
/// each digit's and letter's value: subscript digits `₀`-`₉` and
/// superscript digits `⁴`-`⁹` become the same ASCII digits, fullwidth
/// `！`-`～` the same ASCII characters, and mathematical bold and circled
/// Latin letters the same plain letters.
pub proof fn law_builtin_keeps_values(sets: Seq<CharMappingSet>, c: char)
    requires
        builtin_sets_spec(sets),
    ensures
        0x2080 <= c as u32 <= 0x2089 ==> (spec_lookup_char(sets, c) matches Some(x) && x as u32
            - ('0' as u32) == c as u32 - 0x2080),
        0x2074 <= c as u32 <= 0x2079 ==> (spec_lookup_char(sets, c) matches Some(x) && x as u32
            - ('4' as u32) == c as u32 - 0x2074),
        0xFF01 <= c as u32 <= 0xFF5E ==> (spec_lookup_char(sets, c) matches Some(x) && x as u32
            - ('!' as u32) == c as u32 - 0xFF01),
        0x1D400 <= c as u32 <= 0x1D419 ==> (spec_lookup_char(sets, c) matches Some(x) && x as u32
            - ('A' as u32) == c as u32 - 0x1D400),
        0x1D41A <= c as u32 <= 0x1D433 ==> (spec_lookup_char(sets, c) matches Some(x) && x as u32
            - ('a' as u32) == c as u32 - 0x1D41A),
        0x24B6 <= c as u32 <= 0x24CF ==> (spec_lookup_char(sets, c) matches Some(x) && x as u32
            - ('A' as u32) == c as u32 - 0x24B6),
        0x24D0 <= c as u32 <= 0x24E9 ==> (spec_lookup_char(sets, c) matches Some(x) && x as u32
            - ('a' as u32) == c as u32 - 0x24D0),
{
    lemma_builtin_ranges(sets);
    let rs = flat_ranges(sets);
    let cp = c as u32;
    if 0xFF01 <= cp <= 0xFF5E {
        lemma_range_hit_at(rs, cp, 0);
    } else if 0x1D400 <= cp <= 0x1D419 {
        lemma_range_hit_at(rs, cp, 1);
    } else if 0x1D41A <= cp <= 0x1D433 {
        lemma_range_hit_at(rs, cp, 2);
    } else if 0x24B6 <= cp <= 0x24CF {
        lemma_range_hit_at(rs, cp, 3);
    } else if 0x24D0 <= cp <= 0x24E9 {
        lemma_range_hit_at(rs, cp, 4);
    } else if 0x2074 <= cp <= 0x2079 {
        lemma_range_hit_at(rs, cp, 5);
    } else if 0x2080 <= cp <= 0x2089 {
        lemma_range_hit_at(rs, cp, 6);
    }
}

} // verus!
