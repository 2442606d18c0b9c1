//! The decisions of the color and Unicode transform tool: depth names,
//! per-line transforms, Unicode normalization of content, and which
//! mapping sets to load or drop.

use vstd::prelude::*;

use vstd::utf8::{decode_utf8, encode_utf8, valid_utf8};

use crate::downgrade::ColorDepth;
use crate::preset::{ascii_lower_str, to_ascii_lowercase};
use crate::scan::{append_slice, find_byte};
use crate::strip::str_from_utf8;
use crate::text::{chars_of, spells};
use crate::transform_stream::{spec_transform_line, transform_line};
use crate::unicode_map::{spec_lookup, CharMappingSet, Direction, UnicodeMap};

verus! {

// ── Depth names ─────────────────────────────────────────────────────
/// The depth a lower-case name stands for.
pub open spec fn depth_of_lower_name(n: Seq<char>) -> Option<ColorDepth> {
    if n == "truecolor"@ || n == "true"@ || n == "24bit"@ {
        Some(ColorDepth::Truecolor)
    } else if n == "256"@ || n == "256color"@ {
        Some(ColorDepth::Color256)
    } else if n == "16"@ || n == "16color"@ {
        Some(ColorDepth::Color16)
    } else if n == "greyscale"@ || n == "grayscale"@ || n == "grey"@ || n == "gray"@ {
        Some(ColorDepth::Greyscale)
    } else if n == "mono"@ || n == "monochrome"@ {
        Some(ColorDepth::Mono)
    } else {
        None
    }
}

/// Parse a color depth name (ASCII case-insensitive).
pub fn parse_depth(s: &str) -> (r: Option<ColorDepth>)
    ensures
        r == depth_of_lower_name(ascii_lower_str(s@)),
{
    let n = to_ascii_lowercase(s);
    if spells(&n, "truecolor") || spells(&n, "true") || spells(&n, "24bit") {
        Some(ColorDepth::Truecolor)
    } else if spells(&n, "256") || spells(&n, "256color") {
        Some(ColorDepth::Color256)
    } else if spells(&n, "16") || spells(&n, "16color") {
        Some(ColorDepth::Color16)
    } else if spells(&n, "greyscale") || spells(&n, "grayscale") || spells(&n, "grey") || spells(
        &n,
        "gray",
    ) {
        Some(ColorDepth::Greyscale)
    } else if spells(&n, "mono") || spells(&n, "monochrome") {
        Some(ColorDepth::Mono)
    } else {
        None
    }
}

// ── UTF-8 ───────────────────────────────────────────────────────────
/// Appends the UTF-8 encoding of `c`, by `char::encode_utf8`.
///
/// Trusted: `encode_utf8` writes the UTF-8 encoding of the character.
#[verifier::external_body]
fn push_utf8(out: &mut Vec<u8>, c: char)
    ensures
        final(out)@ == old(out)@ + encode_utf8(seq![c]),
{
    let mut buf = [0u8; 4];
    out.extend_from_slice(c.encode_utf8(&mut buf).as_bytes());
}

/// The encoding of a concatenation is the concatenation of the encodings.
proof fn lemma_encode_concat(a: Seq<char>, b: Seq<char>)
    ensures
        encode_utf8(a + b) == encode_utf8(a) + encode_utf8(b),
    decreases a.len(),
{
    if a.len() == 0 {
        assert(a + b =~= b);
        assert(encode_utf8(a) + encode_utf8(b) =~= encode_utf8(b));
    } else {
        assert((a + b).drop_first() =~= a.drop_first() + b);
        assert((a + b)[0] == a[0]);
        lemma_encode_concat(a.drop_first(), b);
        assert(encode_utf8(a + b) =~= encode_utf8(a) + encode_utf8(b));
    }
}

// ── Unicode normalization ───────────────────────────────────────────
/// What a map of `sets` turns `c` into: its replacement, or `c` itself.
pub open spec fn replacement(sets: Seq<CharMappingSet>, c: char) -> Seq<char> {
    match spec_lookup(sets, c) {
        Some(t) => t,
        None => seq![c],
    }
}

/// Every character replaced by what the map turns it into.
pub open spec fn mapped_chars(sets: Seq<CharMappingSet>, cs: Seq<char>) -> Seq<char>
    decreases cs.len(),
{
    if cs.len() == 0 {
        Seq::empty()
    } else {
        mapped_chars(sets, cs.drop_last()) + replacement(sets, cs.last())
    }
}

/// Whether the map has a mapping for some character of `cs`.
pub open spec fn any_mapped(sets: Seq<CharMappingSet>, cs: Seq<char>) -> bool {
    exists|i: int| 0 <= i < cs.len() && (#[trigger] spec_lookup(sets, cs[i])) is Some
}

/// Whether the bytes hold a lead byte of a character some mapping may have
/// as source (every source is at least U+00B2).
pub open spec fn may_hold_mapped(input: Seq<u8>) -> bool {
    input.contains(0xC2) || input.contains(0xC3) || input.contains(0xE2) || input.contains(0xEF)
        || input.contains(0xF0)
}

/// Unicode normalization of content: the UTF-8 of the mapped characters
/// when some character has a mapping; otherwise, and for bytes that are not
/// valid UTF-8, the input unchanged.
pub open spec fn spec_normalize(input: Seq<u8>, sets: Seq<CharMappingSet>) -> Seq<u8> {
    if !may_hold_mapped(input) || !valid_utf8(input) {
        input
    } else if any_mapped(sets, decode_utf8(input)) {
        encode_utf8(mapped_chars(sets, decode_utf8(input)))
    } else {
        input
    }
}

/// Normalize the Unicode characters of `input` with `map`.
pub fn normalize_content(input: &[u8], map: &UnicodeMap) -> (out: Vec<u8>)
    ensures
        out@ == spec_normalize(input@, map.spec_sets()),
{
    let mut copy: Vec<u8> = Vec::new();
    append_slice(&mut copy, input);
    // Fast path: none of the lead bytes of a mapped source.
    if find_byte(0xC2, input).is_none() && find_byte(0xC3, input).is_none() && find_byte(
        0xE2,
        input,
    ).is_none() && find_byte(0xEF, input).is_none() && find_byte(0xF0, input).is_none() {
        return copy;
    }
    let s = match str_from_utf8(input) {
        Some(s) => s,
        // Not valid UTF-8: pass through.
        None => return copy,
    };
    let ghost sets = map.spec_sets();
    let chars = chars_of(s);
    let mut output: Vec<u8> = Vec::new();
    let mut char_buf: Vec<char> = Vec::new();
    let mut modified = false;
    let n = chars.len();
    let mut i: usize = 0;
    proof {
        assert(chars@.take(0) =~= Seq::<char>::empty());
    }
    while i < n
        invariant
            n == chars@.len(),
            i <= n,
            sets == map.spec_sets(),
            output@ == encode_utf8(mapped_chars(sets, chars@.take(i as int))),
            modified == any_mapped(sets, chars@.take(i as int)),
        decreases n - i,
    {
        let c = chars[i];
        let ghost before = output@;
        let ghost done = chars@.take(i as int);
        char_buf.clear();
        let found = map.lookup_into(c, &mut char_buf);
        if found {
            let m = char_buf.len();
            let mut k: usize = 0;
            proof {
                assert(char_buf@.take(0) =~= Seq::<char>::empty());
                assert(before + encode_utf8(Seq::<char>::empty()) =~= before);
            }
            while k < m
                invariant
                    m == char_buf@.len(),
                    k <= m,
                    output@ == before + encode_utf8(char_buf@.take(k as int)),
                decreases m - k,
            {
                let tc = char_buf[k];
                push_utf8(&mut output, tc);
                proof {
                    assert(char_buf@.take(k + 1) =~= char_buf@.take(k as int) + seq![tc]);
                    lemma_encode_concat(char_buf@.take(k as int), seq![tc]);
                }
                k += 1;
            }
            proof {
                assert(char_buf@.take(m as int) =~= char_buf@);
            }
            modified = true;
        } else {
            push_utf8(&mut output, c);
        }
        proof {
            let next = chars@.take(i + 1);
            assert(next.drop_last() =~= done);
            assert(next.last() == c);
            lemma_encode_concat(mapped_chars(sets, done), replacement(sets, c));
            assert(output@ == encode_utf8(mapped_chars(sets, next)));
            if found {
                assert(spec_lookup(sets, next[i as int]) is Some);
            } else if any_mapped(sets, next) {
                let j = choose|j: int| 0 <= j < next.len() && (#[trigger] spec_lookup(sets, next[j])) is Some;
                assert(j < i);
                assert(next[j] == done[j]);
            }
            if modified && !found {
                let j = choose|j: int| 0 <= j < done.len() && (#[trigger] spec_lookup(sets, done[j])) is Some;
                assert(next[j] == done[j]);
            }
        }
        i += 1;
    }
    proof {
        assert(chars@.take(n as int) =~= chars@);
    }
    if modified {
        output
    } else {
        copy
    }
}

/// Normalizing with a map that maps nothing in the input leaves it as is.
pub proof fn law_normalize_without_mappings(input: Seq<u8>, sets: Seq<CharMappingSet>)
    requires
        valid_utf8(input) ==> !any_mapped(sets, decode_utf8(input)),
    ensures
        spec_normalize(input, sets) == input,
{
}

// ── Shipped mapping files ───────────────────────────────────────────
/// Number of shipped mapping files.
pub const SHIPPED_COUNT: usize = 11;

/// The name of shipped mapping file `i`.
pub open spec fn shipped_name(i: int) -> Seq<char> {
    if i == 0 {
        "math-latin"@
    } else if i == 1 {
        "math-greek"@
    } else if i == 2 {
        "enclosed-alphanumerics"@
    } else if i == 3 {
        "enclosed-alphanumeric-supplement"@
    } else if i == 4 {
        "enclosed-cjk"@
    } else if i == 5 {
        "cjk-compatibility"@
    } else if i == 6 {
        "halfwidth-katakana"@
    } else if i == 7 {
        "halfwidth-hangul"@
    } else if i == 8 {
        "cjk-compat-ideographs"@
    } else if i == 9 {
        "cjk-compat-ideographs-supplement"@
    } else {
        "arabic-presentation-forms"@
    }
}

/// The tags of shipped mapping file `i`.
pub open spec fn shipped_tags(i: int) -> Seq<Seq<char>> {
    if i == 0 {
        seq!["math"@, "canonicalize"@, "ascii-normalize"@]
    } else if i == 1 {
        seq!["math"@, "canonicalize"@]
    } else if i == 2 {
        seq!["ascii-normalize"@, "canonicalize"@]
    } else if i == 3 {
        seq!["ascii-normalize"@, "canonicalize"@]
    } else if i == 4 {
        seq!["cjk"@, "japanese"@, "korean"@, "canonicalize"@]
    } else if i == 5 {
        seq!["japanese"@, "cjk"@, "canonicalize"@]
    } else if i == 6 {
        seq!["japanese"@, "legacy-encoding"@, "canonicalize"@]
    } else if i == 7 {
        seq!["korean"@, "legacy-encoding"@, "canonicalize"@]
    } else if i == 8 {
        seq!["cjk"@, "japanese"@, "korean"@, "canonicalize"@]
    } else if i == 9 {
        seq!["cjk"@, "canonicalize"@]
    } else {
        seq!["arabic"@, "canonicalize"@]
    }
}

/// The width direction of shipped mapping file `i`.
pub open spec fn shipped_direction(i: int) -> Direction {
    if i == 0 {
        Direction::Narrowing
    } else if i == 1 {
        Direction::Neutral
    } else if i == 2 {
        Direction::Narrowing
    } else if i == 3 {
        Direction::Narrowing
    } else if i == 4 {
        Direction::Neutral
    } else if i == 5 {
        Direction::Narrowing
    } else if i == 6 {
        Direction::Widening
    } else if i == 7 {
        Direction::Widening
    } else if i == 8 {
        Direction::Neutral
    } else if i == 9 {
        Direction::Neutral
    } else {
        Direction::Neutral
    }
}

/// The name of shipped mapping file `i`.
fn shipped_name_of(i: usize) -> (n: &'static str)
    requires
        i < SHIPPED_COUNT,
    ensures
        n@ == shipped_name(i as int),
{
    match i {
        0 => "math-latin",
        1 => "math-greek",
        2 => "enclosed-alphanumerics",
        3 => "enclosed-alphanumeric-supplement",
        4 => "enclosed-cjk",
        5 => "cjk-compatibility",
        6 => "halfwidth-katakana",
        7 => "halfwidth-hangul",
        8 => "cjk-compat-ideographs",
        9 => "cjk-compat-ideographs-supplement",
        _ => "arabic-presentation-forms",
    }
}

/// Whether shipped mapping file `i` carries tag `t`.
fn shipped_has_tag(i: usize, t: &str) -> (b: bool)
    requires
        i < SHIPPED_COUNT,
    ensures
        b == shipped_tags(i as int).contains(t@),
{
    let tags = shipped_tags_of(i);
    let mut k: usize = 0;
    while k < tags.len()
        invariant
            tags@.map_values(|x: &'static str| x@) == shipped_tags(i as int),
            k <= tags@.len(),
            forall|j: int| 0 <= j < k ==> shipped_tags(i as int)[j] != t@,
        decreases tags@.len() - k,
    {
        proof {
            assert(shipped_tags(i as int)[k as int] == tags@[k as int]@);
        }
        if crate::text::str_eq(tags[k], t) {
            return true;
        }
        k += 1;
    }
    proof {
        if shipped_tags(i as int).contains(t@) {
            let j = choose|j: int| 0 <= j < shipped_tags(i as int).len() && shipped_tags(i as int)[j] == t@;
            assert(shipped_tags(i as int)[j] != t@);
        }
    }
    false
}

/// The tags of shipped mapping file `i`.
fn shipped_tags_of(i: usize) -> (v: Vec<&'static str>)
    requires
        i < SHIPPED_COUNT,
    ensures
        v@.map_values(|x: &'static str| x@) == shipped_tags(i as int),
{
    let mut v: Vec<&'static str> = Vec::new();
    match i {
        0 => {
            v.push("math");
            v.push("canonicalize");
            v.push("ascii-normalize");
        },
        1 => {
            v.push("math");
            v.push("canonicalize");
        },
        2 => {
            v.push("ascii-normalize");
            v.push("canonicalize");
        },
        3 => {
            v.push("ascii-normalize");
            v.push("canonicalize");
        },
        4 => {
            v.push("cjk");
            v.push("japanese");
            v.push("korean");
            v.push("canonicalize");
        },
        5 => {
            v.push("japanese");
            v.push("cjk");
            v.push("canonicalize");
        },
        6 => {
            v.push("japanese");
            v.push("legacy-encoding");
            v.push("canonicalize");
        },
        7 => {
            v.push("korean");
            v.push("legacy-encoding");
            v.push("canonicalize");
        },
        8 => {
            v.push("cjk");
            v.push("japanese");
            v.push("korean");
            v.push("canonicalize");
        },
        9 => {
            v.push("cjk");
            v.push("canonicalize");
        },
        _ => {
            v.push("arabic");
            v.push("canonicalize");
        },
    }
    proof {
        assert(v@.map_values(|x: &'static str| x@) =~= shipped_tags(i as int));
    }
    v
}


/// The width direction of shipped mapping file `i`.
fn shipped_direction_of(i: usize) -> (d: Direction)
    requires
        i < SHIPPED_COUNT,
    ensures
        d == shipped_direction(i as int),
{
    match i {
        0 => Direction::Narrowing,
        1 => Direction::Neutral,
        2 => Direction::Narrowing,
        3 => Direction::Narrowing,
        4 => Direction::Neutral,
        5 => Direction::Narrowing,
        6 => Direction::Widening,
        7 => Direction::Widening,
        8 => Direction::Neutral,
        9 => Direction::Neutral,
        _ => Direction::Neutral,
    }
}

/// Whether `@tag` selects shipped mapping file `i`: `@all` every file, a
/// topic tag the files that carry it, `@narrowing` the narrowing and
/// neutral files, `@widening` the widening files.
pub open spec fn tag_selects(tag: Seq<char>, i: int) -> bool {
    if tag == "@all"@ {
        true
    } else if tag == "@canonicalize"@ {
        shipped_tags(i).contains("canonicalize"@)
    } else if tag == "@ascii-normalize"@ {
        shipped_tags(i).contains("ascii-normalize"@)
    } else if tag == "@math"@ {
        shipped_tags(i).contains("math"@)
    } else if tag == "@japanese"@ {
        shipped_tags(i).contains("japanese"@)
    } else if tag == "@korean"@ {
        shipped_tags(i).contains("korean"@)
    } else if tag == "@cjk"@ {
        shipped_tags(i).contains("cjk"@)
    } else if tag == "@arabic"@ {
        shipped_tags(i).contains("arabic"@)
    } else if tag == "@narrowing"@ {
        shipped_direction(i) == Direction::Narrowing || shipped_direction(i) == Direction::Neutral
    } else if tag == "@widening"@ {
        shipped_direction(i) == Direction::Widening
    } else {
        false
    }
}

/// The names of the first `n` shipped files that `tag` selects, in order.
pub open spec fn resolved_upto(tag: Seq<char>, n: int) -> Seq<Seq<char>>
    decreases n,
{
    if n <= 0 {
        Seq::empty()
    } else if tag_selects(tag, n - 1) {
        resolved_upto(tag, n - 1).push(shipped_name(n - 1))
    } else {
        resolved_upto(tag, n - 1)
    }
}

/// The names of the shipped files a `@tag` selects (none for an unknown
/// tag).
pub open spec fn spec_resolve_tag(tag: Seq<char>) -> Seq<Seq<char>> {
    resolved_upto(tag, SHIPPED_COUNT as int)
}

/// The views of static strings.
pub open spec fn str_views(v: Seq<&'static str>) -> Seq<Seq<char>> {
    v.map_values(|x: &'static str| x@)
}

/// Whether `tag` selects shipped mapping file `i`.
fn tag_selects_exec(tag: &str, i: usize) -> (b: bool)
    requires
        i < SHIPPED_COUNT,
    ensures
        b == tag_selects(tag@, i as int),
{
    if crate::text::str_eq(tag, "@all") {
        true
    } else if crate::text::str_eq(tag, "@canonicalize") {
        shipped_has_tag(i, "canonicalize")
    } else if crate::text::str_eq(tag, "@ascii-normalize") {
        shipped_has_tag(i, "ascii-normalize")
    } else if crate::text::str_eq(tag, "@math") {
        shipped_has_tag(i, "math")
    } else if crate::text::str_eq(tag, "@japanese") {
        shipped_has_tag(i, "japanese")
    } else if crate::text::str_eq(tag, "@korean") {
        shipped_has_tag(i, "korean")
    } else if crate::text::str_eq(tag, "@cjk") {
        shipped_has_tag(i, "cjk")
    } else if crate::text::str_eq(tag, "@arabic") {
        shipped_has_tag(i, "arabic")
    } else if crate::text::str_eq(tag, "@narrowing") {
        let d = shipped_direction_of(i);
        d == Direction::Narrowing || d == Direction::Neutral
    } else if crate::text::str_eq(tag, "@widening") {
        shipped_direction_of(i) == Direction::Widening
    } else {
        false
    }
}

/// Resolve a `@tag` to the names of the shipped mapping files it selects.
pub fn resolve_tag(tag: &str) -> (v: Vec<&'static str>)
    ensures
        str_views(v@) == spec_resolve_tag(tag@),
{
    let mut v: Vec<&'static str> = Vec::new();
    let mut i: usize = 0;
    proof {
        assert(str_views(v@) =~= Seq::<Seq<char>>::empty());
    }
    while i < SHIPPED_COUNT
        invariant
            i <= SHIPPED_COUNT,
            str_views(v@) == resolved_upto(tag@, i as int),
        decreases SHIPPED_COUNT - i,
    {
        if tag_selects_exec(tag, i) {
            let n = shipped_name_of(i);
            v.push(n);
            proof {
                assert(str_views(v@) =~= resolved_upto(tag@, i as int).push(n@));
            }
        }
        i += 1;
    }
    v
}

// ── Removing built-in sets ──────────────────────────────────────────
/// The built-in set types, in order.
pub open spec fn builtin_set_types() -> Seq<Seq<char>> {
    seq!["fullwidth_ascii"@, "math_latin_bold"@, "latin_ligatures"@, "enclosed_circled_letters"@, "superscript_subscript"@]
}

/// A name with `-` replaced by `_`.
pub open spec fn underscored(s: Seq<char>) -> Seq<char> {
    s.map_values(|c: char| if c == '-' { '_' } else { c })
}

/// The built-in set types a `--no-unicode-map` spec removes: `@security`
/// the three security sets, `@ascii-normalize` all five, and a set name
/// (with `-` for `_`) that set.
pub open spec fn spec_builtin_removals(spec: Seq<char>) -> Seq<Seq<char>> {
    if spec == "@security"@ {
        builtin_set_types().take(3)
    } else if spec == "@ascii-normalize"@ {
        builtin_set_types()
    } else if builtin_set_types().contains(underscored(spec)) {
        seq![underscored(spec)]
    } else {
        Seq::empty()
    }
}

/// Whether two char vectors are equal.
fn chars_eq(a: &Vec<char>, b: &Vec<char>) -> (r: bool)
    ensures
        r == (a@ == b@),
{
    if a.len() != b.len() {
        return false;
    }
    let mut i: usize = 0;
    while i < a.len()
        invariant
            a@.len() == b@.len(),
            i <= a@.len(),
            forall|j: int| 0 <= j < i ==> a@[j] == b@[j],
        decreases a@.len() - i,
    {
        if a[i] != b[i] {
            return false;
        }
        i += 1;
    }
    proof {
        assert(a@ =~= b@);
    }
    true
}

/// The built-in set type names, as static strings.
fn builtin_set_type_names() -> (v: Vec<&'static str>)
    ensures
        str_views(v@) == builtin_set_types(),
{
    let mut v: Vec<&'static str> = Vec::new();
    v.push("fullwidth_ascii");
    v.push("math_latin_bold");
    v.push("latin_ligatures");
    v.push("enclosed_circled_letters");
    v.push("superscript_subscript");
    proof {
        assert(str_views(v@) =~= builtin_set_types());
    }
    v
}

/// Resolve a `--no-unicode-map` spec to the built-in set types to remove.
pub fn resolve_remove_builtins(spec: &str) -> (v: Vec<&'static str>)
    ensures
        str_views(v@) == spec_builtin_removals(spec@),
{
    let all = builtin_set_type_names();
    if crate::text::str_eq(spec, "@security") {
        let mut v: Vec<&'static str> = Vec::new();
        v.push(all[0]);
        v.push(all[1]);
        v.push(all[2]);
        proof {
            assert(str_views(v@) =~= builtin_set_types().take(3));
        }
        return v;
    }
    if crate::text::str_eq(spec, "@ascii-normalize") {
        return all;
    }
    // Normalize the CLI name (dashes) to a set type (underscores).
    let cs = chars_of(spec);
    let mut u: Vec<char> = Vec::new();
    let mut i: usize = 0;
    while i < cs.len()
        invariant
            i <= cs@.len(),
            u@ == underscored(cs@.take(i as int)),
        decreases cs@.len() - i,
    {
        let c = cs[i];
        u.push(if c == '-' { '_' } else { c });
        proof {
            assert(underscored(cs@.take(i + 1)) =~= underscored(cs@.take(i as int)).push(
                if c == '-' { '_' } else { c },
            ));
        }
        i += 1;
    }
    proof {
        assert(cs@.take(cs@.len() as int) =~= cs@);
    }
    let mut k: usize = 0;
    while k < all.len()
        invariant
            str_views(all@) == builtin_set_types(),
            u@ == underscored(spec@),
            spec@ != "@security"@,
            spec@ != "@ascii-normalize"@,
            k <= all@.len(),
            forall|j: int| 0 <= j < k ==> builtin_set_types()[j] != u@,
        decreases all@.len() - k,
    {
        let name = chars_of(all[k]);
        proof {
            assert(builtin_set_types()[k as int] == all@[k as int]@);
        }
        if chars_eq(&name, &u) {
            let mut v: Vec<&'static str> = Vec::new();
            v.push(all[k]);
            proof {
                assert(builtin_set_types().contains(underscored(spec@)));
                assert(str_views(v@) =~= seq![underscored(spec@)]);
            }
            return v;
        }
        k += 1;
    }
    proof {
        if builtin_set_types().contains(underscored(spec@)) {
            let j = choose|j: int| 0 <= j < builtin_set_types().len() && builtin_set_types()[j] == underscored(spec@);
            assert(builtin_set_types()[j] != u@);
        }
    }
    let v: Vec<&'static str> = Vec::new();
    proof {
        assert(str_views(v@) =~= Seq::<Seq<char>>::empty());
    }
    v
}


// ── Mapping-set plan ────────────────────────────────────────────────
/// One step of building the Unicode map from `--unicode-map` specs, by the
/// spec's index.
#[derive(Copy, Clone, Debug, PartialEq, Eq, Structural)]
pub enum MapStep {
    /// Load and merge the mapping file at this path.
    LoadFile(usize),
    /// This `@tag` is unknown: building fails here.
    UnknownTag(usize),
}

/// What to do to build the Unicode map: the built-in sets to remove, the
/// steps over the `--unicode-map` specs in order, and the shipped mapping
/// files to load afterwards.
pub struct UnicodeMapPlan {
    pub remove_builtins: Vec<&'static str>,
    pub steps: Vec<MapStep>,
    pub shipped: Vec<String>,
}

/// Whether a spec names a tag.
pub open spec fn is_tag_spec(s: Seq<char>) -> bool {
    s.len() > 0 && s[0] == '@'
}

/// Whether a spec names a file path.
pub open spec fn is_path_spec(s: Seq<char>) -> bool {
    s.contains('/') || s.contains('.')
}

/// `names` with `n` appended unless already present.
pub open spec fn add_unique(names: Seq<Seq<char>>, n: Seq<char>) -> Seq<Seq<char>> {
    if names.contains(n) {
        names
    } else {
        names.push(n)
    }
}

/// `names` with each of `ns` appended in order unless already present.
pub open spec fn add_all_unique(names: Seq<Seq<char>>, ns: Seq<Seq<char>>) -> Seq<Seq<char>>
    decreases ns.len(),
{
    if ns.len() == 0 {
        names
    } else {
        add_unique(add_all_unique(names, ns.drop_last()), ns.last())
    }
}

/// The steps and shipped names after the first `n` `--unicode-map` specs,
/// and whether an unknown tag stopped the plan: a tag adds the files it
/// selects (an unknown tag stops), a path is loaded, any other spec names a
/// shipped file. Names are kept once, in first order.
pub open spec fn plan_prefix(add: Seq<Seq<char>>, n: int) -> (Seq<MapStep>, Seq<Seq<char>>, bool)
    decreases n,
{
    if n <= 0 {
        (Seq::empty(), Seq::empty(), false)
    } else {
        let (steps, names, stopped) = plan_prefix(add, n - 1);
        let s = add[n - 1];
        if stopped {
            (steps, names, stopped)
        } else if is_tag_spec(s) {
            let r = spec_resolve_tag(s);
            if r.len() == 0 {
                (steps.push(MapStep::UnknownTag((n - 1) as usize)), names, true)
            } else {
                (steps, add_all_unique(names, r), false)
            }
        } else if is_path_spec(s) {
            (steps.push(MapStep::LoadFile((n - 1) as usize)), names, false)
        } else {
            (steps, add_unique(names, s), false)
        }
    }
}

/// The shipped names the first `n` `--no-unicode-map` specs remove: those
/// a tag selects, and plain names.
pub open spec fn removed_names(remove: Seq<Seq<char>>, n: int) -> Seq<Seq<char>>
    decreases n,
{
    if n <= 0 {
        Seq::empty()
    } else {
        let s = remove[n - 1];
        removed_names(remove, n - 1) + if is_tag_spec(s) {
            spec_resolve_tag(s)
        } else if !is_path_spec(s) {
            seq![s]
        } else {
            Seq::empty()
        }
    }
}

/// The built-in set types the first `n` `--no-unicode-map` specs remove.
pub open spec fn builtin_removals(remove: Seq<Seq<char>>, n: int) -> Seq<Seq<char>>
    decreases n,
{
    if n <= 0 {
        Seq::empty()
    } else {
        builtin_removals(remove, n - 1) + spec_builtin_removals(remove[n - 1])
    }
}

/// The names not in `removed`, in order.
pub open spec fn keep_names(names: Seq<Seq<char>>, removed: Seq<Seq<char>>) -> Seq<Seq<char>>
    decreases names.len(),
{
    if names.len() == 0 {
        Seq::empty()
    } else {
        keep_names(names.drop_last(), removed) + if removed.contains(names.last()) {
            Seq::<Seq<char>>::empty()
        } else {
            seq![names.last()]
        }
    }
}

/// The views of strings.
pub open spec fn string_views(v: Seq<String>) -> Seq<Seq<char>> {
    v.map_values(|x: String| x@)
}

/// Whether `v` holds a string with view `n`.
fn holds(v: &Vec<String>, n: &String) -> (b: bool)
    ensures
        b == string_views(v@).contains(n@),
{
    let mut i: usize = 0;
    while i < v.len()
        invariant
            i <= v@.len(),
            forall|j: int| 0 <= j < i ==> v@[j]@ != n@,
        decreases v@.len() - i,
    {
        if v[i] == *n {
            proof {
                assert(string_views(v@)[i as int] == n@);
            }
            return true;
        }
        i += 1;
    }
    proof {
        if string_views(v@).contains(n@) {
            let j = choose|j: int| 0 <= j < string_views(v@).len() && string_views(v@)[j] == n@;
            assert(v@[j]@ == n@);
        }
    }
    false
}

/// Appends `n` unless already present.
fn push_unique(v: &mut Vec<String>, n: String)
    ensures
        string_views(final(v)@) == add_unique(string_views(old(v)@), n@),
{
    if !holds(v, &n) {
        let ghost before = v@;
        v.push(n);
        proof {
            assert(string_views(v@) =~= string_views(before).push(n@));
        }
    }
}

/// Appends the views of static strings to a string vector.
fn push_all_unique(v: &mut Vec<String>, ns: &Vec<&'static str>)
    ensures
        string_views(final(v)@) == add_all_unique(string_views(old(v)@), str_views(ns@)),
{
    let mut i: usize = 0;
    proof {
        assert(str_views(ns@).take(0) =~= Seq::<Seq<char>>::empty());
    }
    while i < ns.len()
        invariant
            i <= ns@.len(),
            string_views(v@) == add_all_unique(string_views(old(v)@), str_views(ns@).take(i as int)),
        decreases ns@.len() - i,
    {
        push_unique(v, ns[i].to_owned());
        proof {
            let t = str_views(ns@).take(i + 1);
            assert(t.drop_last() =~= str_views(ns@).take(i as int));
            assert(t.last() == ns@[i as int]@);
        }
        i += 1;
    }
    proof {
        assert(str_views(ns@).take(ns@.len() as int) =~= str_views(ns@));
    }
}

/// Whether a spec names a tag.
fn is_tag(s: &Vec<char>) -> (b: bool)
    ensures
        b == is_tag_spec(s@),
{
    s.len() > 0 && s[0] == '@'
}

/// Whether a char vector holds `c`.
fn has_char(s: &Vec<char>, c: char) -> (b: bool)
    ensures
        b == s@.contains(c),
{
    let mut i: usize = 0;
    while i < s.len()
        invariant
            i <= s@.len(),
            forall|j: int| 0 <= j < i ==> s@[j] != c,
        decreases s@.len() - i,
    {
        if s[i] == c {
            return true;
        }
        i += 1;
    }
    false
}

/// Plan the building of the Unicode map from the `--unicode-map` specs
/// (`add`) and the `--no-unicode-map` specs (`remove`).
pub fn plan_unicode_map(add: &Vec<String>, remove: &Vec<String>) -> (p: UnicodeMapPlan)
    ensures
        str_views(p.remove_builtins@) == builtin_removals(string_views(remove@), remove@.len() as int),
        p.steps@ == plan_prefix(string_views(add@), add@.len() as int).0,
        string_views(p.shipped@) == keep_names(
            plan_prefix(string_views(add@), add@.len() as int).1,
            removed_names(string_views(remove@), remove@.len() as int),
        ),
{
    let ghost av = string_views(add@);
    let ghost rv = string_views(remove@);
    // Built-in removals.
    let mut remove_builtins: Vec<&'static str> = Vec::new();
    let mut i: usize = 0;
    proof {
        assert(str_views(remove_builtins@) =~= Seq::<Seq<char>>::empty());
    }
    while i < remove.len()
        invariant
            i <= remove@.len(),
            rv == string_views(remove@),
            str_views(remove_builtins@) == builtin_removals(rv, i as int),
        decreases remove@.len() - i,
    {
        let r = resolve_remove_builtins(remove[i].as_str());
        let ghost before = remove_builtins@;
        let mut k: usize = 0;
        while k < r.len()
            invariant
                k <= r@.len(),
                remove_builtins@ == before + r@.take(k as int),
            decreases r@.len() - k,
        {
            remove_builtins.push(r[k]);
            proof {
                assert(r@.take(k + 1) =~= r@.take(k as int).push(r@[k as int]));
            }
            k += 1;
        }
        proof {
            assert(r@.take(k as int) =~= r@);
            assert(str_views(before + r@) =~= str_views(before) + str_views(r@));
            assert(rv[i as int] == remove@[i as int]@);
        }
        i += 1;
    }
    // Steps and shipped names over the specs in order.
    let mut steps: Vec<MapStep> = Vec::new();
    let mut names: Vec<String> = Vec::new();
    let mut stopped = false;
    let mut j: usize = 0;
    proof {
        assert(string_views(names@) =~= Seq::<Seq<char>>::empty());
    }
    while j < add.len()
        invariant
            j <= add@.len(),
            av == string_views(add@),
            (steps@, string_views(names@), stopped) == plan_prefix(av, j as int),
        decreases add@.len() - j,
    {
        proof {
            assert(av[j as int] == add@[j as int]@);
        }
        if !stopped {
            let cs = chars_of(add[j].as_str());
            if is_tag(&cs) {
                let r = resolve_tag(add[j].as_str());
                if r.len() == 0 {
                    steps.push(MapStep::UnknownTag(j));
                    stopped = true;
                } else {
                    push_all_unique(&mut names, &r);
                }
            } else if has_char(&cs, '/') || has_char(&cs, '.') {
                steps.push(MapStep::LoadFile(j));
            } else {
                push_unique(&mut names, add[j].clone());
            }
        }
        j += 1;
    }
    // Shipped names that a removal spec names are not loaded.
    let mut removed: Vec<String> = Vec::new();
    let mut m: usize = 0;
    proof {
        assert(string_views(removed@) =~= Seq::<Seq<char>>::empty());
    }
    while m < remove.len()
        invariant
            m <= remove@.len(),
            rv == string_views(remove@),
            string_views(removed@) == removed_names(rv, m as int),
        decreases remove@.len() - m,
    {
        let ghost before = string_views(removed@);
        let cs = chars_of(remove[m].as_str());
        proof {
            assert(rv[m as int] == remove@[m as int]@);
        }
        if is_tag(&cs) {
            let r = resolve_tag(remove[m].as_str());
            let mut k: usize = 0;
            while k < r.len()
                invariant
                    k <= r@.len(),
                    string_views(removed@) == before + str_views(r@).take(k as int),
                decreases r@.len() - k,
            {
                let ghost b2 = removed@;
                removed.push(r[k].to_owned());
                proof {
                    assert(string_views(removed@) =~= string_views(b2).push(r@[k as int]@));
                    assert(str_views(r@).take(k + 1) =~= str_views(r@).take(k as int).push(r@[k as int]@));
                }
                k += 1;
            }
            proof {
                assert(str_views(r@).take(k as int) =~= str_views(r@));
            }
        } else if !(has_char(&cs, '/') || has_char(&cs, '.')) {
            let ghost b2 = removed@;
            removed.push(remove[m].clone());
            proof {
                assert(string_views(removed@) =~= string_views(b2).push(rv[m as int]));
                assert(before + seq![rv[m as int]] =~= before.push(rv[m as int]));
            }
        } else {
            proof {
                assert(before + Seq::<Seq<char>>::empty() =~= before);
            }
        }
        m += 1;
    }
    let mut shipped: Vec<String> = Vec::new();
    let mut q: usize = 0;
    proof {
        assert(string_views(names@).take(0) =~= Seq::<Seq<char>>::empty());
        assert(string_views(shipped@) =~= Seq::<Seq<char>>::empty());
    }
    while q < names.len()
        invariant
            q <= names@.len(),
            string_views(shipped@) == keep_names(string_views(names@).take(q as int), string_views(removed@)),
        decreases names@.len() - q,
    {
        let ghost b2 = shipped@;
        proof {
            let t = string_views(names@).take(q + 1);
            assert(t.drop_last() =~= string_views(names@).take(q as int));
            assert(t.last() == names@[q as int]@);
        }
        if !holds(&removed, &names[q]) {
            shipped.push(names[q].clone());
            proof {
                assert(string_views(shipped@) =~= string_views(b2) + seq![names@[q as int]@]);
            }
        } else {
            proof {
                assert(string_views(b2) + Seq::<Seq<char>>::empty() =~= string_views(b2));
            }
        }
        q += 1;
    }
    proof {
        assert(string_views(names@).take(names@.len() as int) =~= string_views(names@));
    }
    UnicodeMapPlan { remove_builtins, steps, shipped }
}

// ── Per-line transform ──────────────────────────────────────────────
/// What the transform tool writes for one line: the line itself when
/// nothing is to be done; otherwise its color transform (unless colors are
/// left as they are), then its Unicode normalization when a map is active.
pub open spec fn spec_distill_line(
    line: Seq<u8>,
    depth: ColorDepth,
    palette_identity: bool,
    sets: Option<Seq<CharMappingSet>>,
) -> Seq<u8> {
    let color_no_op = depth == ColorDepth::Truecolor && palette_identity;
    let colored = if color_no_op {
        line
    } else {
        spec_transform_line(line, depth)
    };
    match sets {
        Some(s) => spec_normalize(colored, s),
        None => colored,
    }
}

/// Transform one line: rewrite its colors for `depth` (unless the depth is
/// truecolor and the palette the identity), then normalize its Unicode with
/// `map` when there is one.
pub fn distill_line(line: &[u8], depth: ColorDepth, palette_identity: bool, map: Option<&UnicodeMap>) -> (out: Vec<u8>)
    ensures
        out@ == spec_distill_line(
            line@,
            depth,
            palette_identity,
            match map {
                Some(m) => Some(m.spec_sets()),
                None => None,
            },
        ),
{
    let color_no_op = depth == ColorDepth::Truecolor && palette_identity;
    let transformed = if color_no_op {
        let mut v: Vec<u8> = Vec::new();
        append_slice(&mut v, line);
        v
    } else {
        transform_line(line, depth)
    };
    match map {
        Some(m) => normalize_content(transformed.as_slice(), m),
        None => transformed,
    }
}

} // verus!
