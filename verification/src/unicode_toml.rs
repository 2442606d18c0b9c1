//! Mapping sets from their TOML form: the fields of a mapping file, as the
//! TOML reader hands them over (strings of hex codepoints), checked and
//! turned into a [`CharMappingSet`].
//!
//! Codepoints are read as `u32::from_str_radix(s.trim(), 16)` reads them:
//! surrounding Unicode white space is ignored, one leading `+` is allowed,
//! and the value must fit in 32 bits.

use vstd::prelude::*;
use vstd::string::StringExecFns;

use crate::text::{chars_of, str_eq};
use crate::toml_config::{debug_text, str_debug};
use crate::decimal::{append_decimal, ascii_text, decimal};
use crate::unicode_map::{
    char_from_u32, has_set, is_scalar, pair_view, CharMappingSet, Direction, PairMapping, RangeMapping,
    UnicodeMap,
};

verus! {

// ── White space ─────────────────────────────────────────────────────
/// Unicode `White_Space`, the property `char::is_whitespace` tests.
pub open spec fn is_white_space(c: char) -> bool {
    let u = c as u32;
    ||| 0x09 <= u && u <= 0x0D
    ||| u == 0x20
    ||| u == 0x85
    ||| u == 0xA0
    ||| u == 0x1680
    ||| 0x2000 <= u && u <= 0x200A
    ||| u == 0x2028
    ||| u == 0x2029
    ||| u == 0x202F
    ||| u == 0x205F
    ||| u == 0x3000
}

/// Whether `c` is Unicode white space.
pub fn white_space(c: char) -> (b: bool)
    ensures
        b == is_white_space(c),
{
    let u = c as u32;
    (0x09 <= u && u <= 0x0D) || u == 0x20 || u == 0x85 || u == 0xA0 || u == 0x1680 || (0x2000
        <= u && u <= 0x200A) || u == 0x2028 || u == 0x2029 || u == 0x202F || u == 0x205F || u
        == 0x3000
}

/// The index of the first character at or after `i` that is not white
/// space (`s.len()` when there is none).
pub open spec fn lead_end(s: Seq<char>, i: int) -> int
    decreases s.len() - i,
{
    if 0 <= i < s.len() && is_white_space(s[i]) {
        lead_end(s, i + 1)
    } else {
        i
    }
}

/// The index just past the last character before `j` that is not white
/// space (0 when there is none).
pub open spec fn trail_start(s: Seq<char>, j: int) -> int
    decreases j,
{
    if 0 < j <= s.len() && is_white_space(s[j - 1]) {
        trail_start(s, j - 1)
    } else {
        j
    }
}

/// `s` without leading and trailing white space.
pub open spec fn spec_trim(s: Seq<char>) -> Seq<char> {
    let a = lead_end(s, 0);
    let b = trail_start(s, s.len() as int);
    if a < b {
        s.subrange(a, b)
    } else {
        Seq::empty()
    }
}

/// `s` without leading and trailing white space, as `str::trim` gives it.
pub fn trim(s: &str) -> (t: &str)
    ensures
        t@ == spec_trim(s@),
{
    let cs = chars_of(s);
    let n = cs.len();
    let mut a: usize = 0;
    while a < n && white_space(cs[a])
        invariant
            n == cs@.len(),
            cs@ == s@,
            a <= n,
            lead_end(s@, a as int) == lead_end(s@, 0),
        decreases n - a,
    {
        a += 1;
    }
    let mut b: usize = n;
    while b > 0 && white_space(cs[b - 1])
        invariant
            n == cs@.len(),
            cs@ == s@,
            b <= n,
            trail_start(s@, b as int) == trail_start(s@, n as int),
        decreases b,
    {
        b -= 1;
    }
    if a < b {
        s.substring_char(a, b)
    } else {
        let e = s.substring_char(0, 0);
        proof {
            assert(e@ =~= Seq::<char>::empty());
        }
        e
    }
}

// ── Hexadecimal codepoints ──────────────────────────────────────────
/// Why a hex codepoint was refused, as `ParseIntError` tells it.
#[derive(Copy, Clone, Debug, PartialEq, Eq, Structural)]
pub enum HexError {
    /// Nothing to read.
    Empty,
    /// A character that is not a hex digit.
    InvalidDigit,
    /// The value does not fit in 32 bits.
    Overflow,
}

/// The value of a hex digit (either case), if `c` is one.
pub open spec fn hex_digit(c: char) -> Option<int> {
    let u = c as u32;
    if 0x30 <= u && u <= 0x39 {
        Some(u - 0x30)
    } else if 0x61 <= u && u <= 0x66 {
        Some(u - 0x61 + 10)
    } else if 0x41 <= u && u <= 0x46 {
        Some(u - 0x41 + 10)
    } else {
        None
    }
}

/// Reads hex digits from index `i` on, `acc` being the value so far; the
/// first bad digit or the first step past `u32::MAX` stops it.
pub open spec fn scan_hex(d: Seq<char>, i: int, acc: int) -> Result<int, HexError>
    decreases d.len() - i,
{
    if i < 0 || i >= d.len() {
        Ok(acc)
    } else {
        match hex_digit(d[i]) {
            None => Err(HexError::InvalidDigit),
            Some(v) => if acc * 16 + v > u32::MAX {
                Err(HexError::Overflow)
            } else {
                scan_hex(d, i + 1, acc * 16 + v)
            },
        }
    }
}

/// The value of an unsigned hex number with an optional leading `+`.
pub open spec fn spec_from_hex(t: Seq<char>) -> Result<int, HexError> {
    if t.len() == 0 {
        Err(HexError::Empty)
    } else if t[0] == '+' {
        if t.len() == 1 {
            Err(HexError::InvalidDigit)
        } else {
            scan_hex(t, 1, 0)
        }
    } else {
        scan_hex(t, 0, 0)
    }
}

/// The text of a hex error.
pub open spec fn hex_error_text(k: HexError) -> Seq<char> {
    match k {
        HexError::Empty => "cannot parse integer from empty string"@,
        HexError::InvalidDigit => "invalid digit found in string"@,
        HexError::Overflow => "number too large to fit in target type"@,
    }
}

/// The message for a refused hex codepoint `s`.
pub open spec fn hex_cp_message(s: Seq<char>, k: HexError) -> Seq<char> {
    "invalid hex codepoint "@ + str_debug(s) + ": "@ + hex_error_text(k)
}

/// A result with its error text taken by its view.
pub open spec fn err_view<T>(r: Result<T, String>) -> Result<T, Seq<char>> {
    match r {
        Ok(v) => Ok(v),
        Err(e) => Err(e@),
    }
}

/// A hex codepoint read from `s`, or the message refusing it.
pub open spec fn spec_parse_cp(s: Seq<char>) -> Result<u32, Seq<char>> {
    match spec_from_hex(spec_trim(s)) {
        Ok(v) => Ok(v as u32),
        Err(k) => Err(hex_cp_message(s, k)),
    }
}

fn error_text(k: HexError) -> (t: &'static str)
    ensures
        t@ == hex_error_text(k),
{
    match k {
        HexError::Empty => "cannot parse integer from empty string",
        HexError::InvalidDigit => "invalid digit found in string",
        HexError::Overflow => "number too large to fit in target type",
    }
}

fn digit_value(c: char) -> (v: Option<u32>)
    ensures
        match hex_digit(c) {
            Some(x) => v == Some(x as u32),
            None => v is None,
        },
{
    let u = c as u32;
    if 0x30 <= u && u <= 0x39 {
        Some(u - 0x30)
    } else if 0x61 <= u && u <= 0x66 {
        Some(u - 0x61 + 10)
    } else if 0x41 <= u && u <= 0x46 {
        Some(u - 0x41 + 10)
    } else {
        None
    }
}

/// Reads the hex number `t` (already trimmed).
fn from_hex(t: &str) -> (r: Result<u32, HexError>)
    ensures
        match spec_from_hex(t@) {
            Ok(v) => r == Ok::<u32, HexError>(v as u32) && v <= u32::MAX,
            Err(k) => r == Err::<u32, HexError>(k),
        },
{
    let cs = chars_of(t);
    let n = cs.len();
    if n == 0 {
        return Err(HexError::Empty);
    }
    let mut i: usize = 0;
    if cs[0] == '+' {
        if n == 1 {
            return Err(HexError::InvalidDigit);
        }
        i = 1;
    }
    let mut acc: u32 = 0;
    while i < n
        invariant
            n == cs@.len(),
            cs@ == t@,
            n > 0,
            1 <= i <= n || i == 0,
            i == 0 ==> cs@[0] != '+' && acc == 0,
            spec_from_hex(t@) == scan_hex(t@, i as int, acc as int),
        decreases n - i,
    {
        match digit_value(cs[i]) {
            None => return Err(HexError::InvalidDigit),
            Some(v) => {
                let next: u64 = acc as u64 * 16 + v as u64;
                if next > 0xFFFF_FFFF {
                    return Err(HexError::Overflow);
                }
                acc = next as u32;
            },
        }
        i += 1;
    }
    Ok(acc)
}

/// Reads a hex codepoint, ignoring surrounding white space; refused with
/// the reader's message.
pub fn parse_hex_cp(s: &str) -> (r: Result<u32, String>)
    ensures
        err_view(r) == spec_parse_cp(s@),
{
    match from_hex(trim(s)) {
        Ok(v) => Ok(v),
        Err(k) => {
            let mut m = String::from_str("invalid hex codepoint ");
            let d = debug_text(s);
            m.append(d.as_str());
            m.append(": ");
            m.append(error_text(k));
            Err(m)
        },
    }
}

// ── Hex rendering ───────────────────────────────────────────────────
/// The upper-case hex digit of `d` (below 16).
pub open spec fn hex_char(d: nat) -> char {
    if d < 10 {
        (d + 48) as char
    } else {
        (d + 55) as char
    }
}

/// The upper-case hex digits of `n`, most significant first.
pub open spec fn upper_hex(n: nat) -> Seq<char>
    decreases n,
{
    if n < 16 {
        seq![hex_char(n)]
    } else {
        upper_hex(n / 16).push(hex_char(n % 16))
    }
}

/// `n` in upper-case hex, zero-padded to at least four digits (`{:04X}`).
pub open spec fn hex4(n: nat) -> Seq<char> {
    let h = upper_hex(n);
    if h.len() < 4 {
        Seq::new((4 - h.len()) as nat, |_i: int| '0') + h
    } else {
        h
    }
}

fn hex_digit_text(d: u32) -> (s: &'static str)
    requires
        d < 16,
    ensures
        s@ == seq![hex_char(d as nat)],
{
    proof {
        reveal_strlit("0");
        reveal_strlit("1");
        reveal_strlit("2");
        reveal_strlit("3");
        reveal_strlit("4");
        reveal_strlit("5");
        reveal_strlit("6");
        reveal_strlit("7");
        reveal_strlit("8");
        reveal_strlit("9");
        reveal_strlit("A");
        reveal_strlit("B");
        reveal_strlit("C");
        reveal_strlit("D");
        reveal_strlit("E");
        reveal_strlit("F");
    }
    match d {
        0 => "0",
        1 => "1",
        2 => "2",
        3 => "3",
        4 => "4",
        5 => "5",
        6 => "6",
        7 => "7",
        8 => "8",
        9 => "9",
        10 => "A",
        11 => "B",
        12 => "C",
        13 => "D",
        14 => "E",
        _ => "F",
    }
}

fn append_upper_hex(s: &mut String, n: u32)
    ensures
        final(s)@ == old(s)@ + upper_hex(n as nat),
    decreases n,
{
    if n >= 16 {
        append_upper_hex(s, n / 16);
    }
    s.append(hex_digit_text(n % 16));
}

fn hex_len(n: u32) -> (k: usize)
    ensures
        k == upper_hex(n as nat).len(),
        1 <= k <= 1 + n / 16,
    decreases n,
{
    if n >= 16 {
        1 + hex_len(n / 16)
    } else {
        1
    }
}

/// Appends `n` as `{:04X}` renders it.
fn append_hex4(s: &mut String, n: u32)
    ensures
        final(s)@ == old(s)@ + hex4(n as nat),
{
    let k = hex_len(n);
    let mut j = k;
    while j < 4
        invariant
            k == upper_hex(n as nat).len(),
            k <= j,
            j <= 4 || j == k,
            s@ == old(s)@ + Seq::new((j - k) as nat, |_i: int| '0'),
        decreases 4 - j,
    {
        s.append("0");
        proof {
            reveal_strlit("0");
            assert(Seq::new((j + 1 - k) as nat, |_i: int| '0') =~= Seq::new((j - k) as nat, |_i: int| '0').push('0'));
        }
        j += 1;
    }
    append_upper_hex(s, n);
    proof {
        let h = upper_hex(n as nat);
        if k >= 4 {
            assert(Seq::new((j - k) as nat, |_i: int| '0') =~= Seq::<char>::empty());
            assert(s@ =~= old(s)@ + h);
        } else {
            assert(s@ =~= old(s)@ + (Seq::new((4 - h.len()) as nat, |_i: int| '0') + h));
        }
    }
}

// ── Codepoints and sequences ────────────────────────────────────────
/// A char read from a hex codepoint, or the message refusing it.
pub open spec fn spec_parse_char(s: Seq<char>) -> Result<char, Seq<char>> {
    match spec_parse_cp(s) {
        Err(m) => Err(m),
        Ok(cp) => if is_scalar(cp) {
            Ok(cp as char)
        } else {
            Err("invalid Unicode codepoint: U+"@ + hex4(cp as nat))
        },
    }
}

/// Reads a hex codepoint as a char; surrogates and values above
/// `0x10FFFF` are refused.
pub fn parse_hex_char(s: &str) -> (r: Result<char, String>)
    ensures
        err_view(r) == spec_parse_char(s@),
{
    let cp = match parse_hex_cp(s) {
        Ok(cp) => cp,
        Err(m) => return Err(m),
    };
    match char_from_u32(cp) {
        Some(c) => Ok(c),
        None => {
            let mut m = String::from_str("invalid Unicode codepoint: U+");
            append_hex4(&mut m, cp);
            Err(m)
        },
    }
}

/// The words of `s[..i]` (runs of non-white-space characters) that have
/// ended, and the word still open at `i`.
pub open spec fn words_upto(s: Seq<char>, i: int) -> (Seq<Seq<char>>, Seq<char>)
    decreases i,
{
    if i <= 0 || i > s.len() {
        (Seq::empty(), Seq::empty())
    } else {
        let (ws, cur) = words_upto(s, i - 1);
        if is_white_space(s[i - 1]) {
            if cur.len() > 0 {
                (ws.push(cur), Seq::empty())
            } else {
                (ws, cur)
            }
        } else {
            (ws, cur.push(s[i - 1]))
        }
    }
}

/// The words of `s`, as `str::split_whitespace` yields them.
pub open spec fn spec_words(s: Seq<char>) -> Seq<Seq<char>> {
    let (ws, cur) = words_upto(s, s.len() as int);
    if cur.len() > 0 {
        ws.push(cur)
    } else {
        ws
    }
}

/// The views of string slices.
pub open spec fn slice_views(v: Seq<&str>) -> Seq<Seq<char>> {
    v.map_values(|t: &str| t@)
}

/// The words of `s`, as string slices.
fn words(s: &str) -> (v: Vec<&str>)
    ensures
        slice_views(v@) == spec_words(s@),
{
    let cs = chars_of(s);
    let n = cs.len();
    let mut v: Vec<&str> = Vec::new();
    let mut start: usize = 0;
    let mut open = false;
    let mut i: usize = 0;
    while i < n
        invariant
            n == cs@.len(),
            cs@ == s@,
            i <= n,
            start <= i,
            slice_views(v@) == words_upto(s@, i as int).0,
            words_upto(s@, i as int).1 == (if open {
                s@.subrange(start as int, i as int)
            } else {
                Seq::<char>::empty()
            }),
            open ==> start < i,
        decreases n - i,
    {
        if white_space(cs[i]) {
            if open {
                let w = s.substring_char(start, i);
                proof {
                    assert(slice_views(v@.push(w)) =~= slice_views(v@).push(w@));
                }
                v.push(w);
                open = false;
            }
        } else if !open {
            start = i;
            open = true;
            proof {
                assert(s@.subrange(start as int, i + 1) =~= Seq::<char>::empty().push(s@[i as int]));
            }
        } else {
            proof {
                assert(s@.subrange(start as int, i + 1) =~= s@.subrange(start as int, i as int).push(
                    s@[i as int],
                ));
            }
        }
        i += 1;
    }
    if open {
        let w = s.substring_char(start, n);
        proof {
            assert(slice_views(v@.push(w)) =~= slice_views(v@).push(w@));
        }
        v.push(w);
    }
    v
}

/// The chars of a sequence of hex codepoints, or the message refusing
/// the first bad one.
pub open spec fn spec_hex_chars(ws: Seq<Seq<char>>) -> Result<Seq<char>, Seq<char>>
    decreases ws.len(),
{
    if ws.len() == 0 {
        Ok(Seq::empty())
    } else {
        match spec_parse_char(ws[0]) {
            Err(m) => Err(m),
            Ok(c) => match spec_hex_chars(ws.drop_first()) {
                Ok(cs) => Ok(seq![c] + cs),
                Err(m) => Err(m),
            },
        }
    }
}

/// `done` put in front of the chars of a result.
pub open spec fn after_chars(done: Seq<char>, r: Result<Seq<char>, Seq<char>>) -> Result<Seq<char>, Seq<char>> {
    match r {
        Ok(cs) => Ok(done + cs),
        Err(m) => Err(m),
    }
}

/// The view of a result holding chars.
pub open spec fn chars_view(r: Result<Vec<char>, String>) -> Result<Seq<char>, Seq<char>> {
    match r {
        Ok(v) => Ok(v@),
        Err(e) => Err(e@),
    }
}

/// Reads a white-space separated sequence of hex codepoints.
pub fn parse_hex_seq(s: &str) -> (r: Result<Vec<char>, String>)
    ensures
        chars_view(r) == spec_hex_chars(spec_words(s@)),
{
    let ws = words(s);
    let ghost all = spec_words(s@);
    let mut out: Vec<char> = Vec::new();
    let mut k: usize = 0;
    proof {
        assert(all.skip(0) =~= all);
        match spec_hex_chars(all) {
            Ok(cs) => assert(out@ + cs =~= cs),
            Err(m) => {},
        }
    }
    while k < ws.len()
        invariant
            slice_views(ws@) == all,
            all == spec_words(s@),
            k <= ws@.len(),
            spec_hex_chars(all) == after_chars(out@, spec_hex_chars(all.skip(k as int))),
        decreases ws@.len() - k,
    {
        let c = parse_hex_char(ws[k]);
        proof {
            assert(all.skip(k as int)[0] == ws@[k as int]@);
            assert(all.skip(k as int).drop_first() =~= all.skip(k + 1));
        }
        match c {
            Ok(c) => {
                proof {
                    assert(out@.push(c) =~= out@ + seq![c]);
                    match spec_hex_chars(all.skip(k + 1)) {
                        Ok(cs) => assert(out@ + (seq![c] + cs) =~= out@.push(c) + cs),
                        Err(m) => {},
                    }
                }
                out.push(c);
            },
            Err(m) => return Err(m),
        }
        k += 1;
    }
    proof {
        assert(all.skip(k as int) =~= Seq::<Seq<char>>::empty());
        assert(out@ + Seq::<char>::empty() =~= out@);
    }
    Ok(out)
}

// ── Mapping files ───────────────────────────────────────────────────
/// A mapping file: its `[metadata]`, `[[ranges]]` and `[[pairs]]`.
#[derive(Clone, Debug)]
pub struct MappingFile {
    pub metadata: MetadataToml,
    pub ranges: Vec<RangeToml>,
    pub pairs: Vec<PairToml>,
}

/// The `[metadata]` section.
#[derive(Clone, Debug)]
pub struct MetadataToml {
    /// The set's unique name (`type` in the file).
    pub set_type: String,
    pub description: String,
    pub direction: String,
    pub tags: Vec<String>,
}

/// A `[[ranges]]` entry: hex codepoints.
#[derive(Clone, Debug)]
pub struct RangeToml {
    pub from_start: String,
    pub from_end: String,
    pub to_start: String,
}

/// A `[[pairs]]` entry: a hex codepoint and either one target (`to`) or
/// a white-space separated sequence of them (`to_seq`).
#[derive(Clone, Debug)]
pub struct PairToml {
    pub from: String,
    pub to: Option<String>,
    pub to_seq: Option<String>,
}

/// The direction named `s`, or the message refusing it.
pub open spec fn spec_direction(s: Seq<char>) -> Result<Direction, Seq<char>> {
    if s == "narrowing"@ {
        Ok(Direction::Narrowing)
    } else if s == "widening"@ {
        Ok(Direction::Widening)
    } else if s == "neutral"@ {
        Ok(Direction::Neutral)
    } else {
        Err("invalid direction "@ + str_debug(s) + ": expected narrowing, widening, or neutral"@)
    }
}

/// Reads a direction name.
pub fn parse_direction(s: &str) -> (r: Result<Direction, String>)
    ensures
        err_view(r) == spec_direction(s@),
{
    if str_eq(s, "narrowing") {
        Ok(Direction::Narrowing)
    } else if str_eq(s, "widening") {
        Ok(Direction::Widening)
    } else if str_eq(s, "neutral") {
        Ok(Direction::Neutral)
    } else {
        let mut m = String::from_str("invalid direction ");
        let d = debug_text(s);
        m.append(d.as_str());
        m.append(": expected narrowing, widening, or neutral");
        Err(m)
    }
}

/// The range mapping of a `[[ranges]]` entry, or the message refusing it:
/// the three codepoints must read, the range must not be reversed, and
/// the last target must be a char. The offset is taken modulo 2^32.
pub open spec fn spec_convert_range(from_start: Seq<char>, from_end: Seq<char>, to_start: Seq<char>) -> Result<RangeMapping, Seq<char>> {
    match (spec_parse_cp(from_start), spec_parse_cp(from_end), spec_parse_cp(to_start)) {
        (Err(m), _, _) => Err(m),
        (Ok(_), Err(m), _) => Err(m),
        (Ok(_), Ok(_), Err(m)) => Err(m),
        (Ok(a), Ok(b), Ok(t)) => if b < a {
            Err("range from_end ("@ + hex4(b as nat) + ") < from_start ("@ + hex4(a as nat) + ")"@)
        } else {
            let offset = (t - a) as i32;
            let last = (b + offset) as u32;
            if !is_scalar(last) {
                Err("range target end U+"@ + hex4(last as nat) + " is not a valid Unicode codepoint"@)
            } else {
                Ok(RangeMapping { from_start: a, from_end: b, offset })
            }
        },
    }
}

/// Checks a `[[ranges]]` entry and turns it into a range mapping.
pub fn convert_range(r: &RangeToml) -> (res: Result<RangeMapping, String>)
    ensures
        err_view(res) == spec_convert_range(r.from_start@, r.from_end@, r.to_start@),
{
    let from_start = match parse_hex_cp(r.from_start.as_str()) {
        Ok(v) => v,
        Err(m) => return Err(m),
    };
    let from_end = match parse_hex_cp(r.from_end.as_str()) {
        Ok(v) => v,
        Err(m) => return Err(m),
    };
    let to_start = match parse_hex_cp(r.to_start.as_str()) {
        Ok(v) => v,
        Err(m) => return Err(m),
    };
    if from_end < from_start {
        let mut m = String::from_str("range from_end (");
        append_hex4(&mut m, from_end);
        m.append(") < from_start (");
        append_hex4(&mut m, from_start);
        m.append(")");
        return Err(m);
    }
    let wide: i64 = to_start as i64 - from_start as i64;
    let offset: i32 = wide as i32;
    let last_target: u32 = (from_end as i64 + offset as i64) as u32;
    if char_from_u32(last_target).is_none() {
        let mut m = String::from_str("range target end U+");
        append_hex4(&mut m, last_target);
        m.append(" is not a valid Unicode codepoint");
        return Err(m);
    }
    Ok(RangeMapping { from_start, from_end, offset })
}

/// The message refusing the pair from `from`, for `what` went wrong.
pub open spec fn pair_message(from: char, what: Seq<char>) -> Seq<char> {
    "pair for U+"@ + hex4(from as u32 as nat) + what
}

/// The source and target of a `[[pairs]]` entry, or the message refusing
/// it: the source must read, exactly one of `to` and `to_seq` must be
/// given, and the target must read and not be empty.
pub open spec fn spec_convert_pair(from: Seq<char>, to: Option<Seq<char>>, to_seq: Option<Seq<char>>) -> Result<(char, Seq<char>), Seq<char>> {
    match spec_parse_char(from) {
        Err(m) => Err(m),
        Ok(f) => {
            let target: Result<Seq<char>, Seq<char>> = match (to, to_seq) {
                (Some(t), None) => match spec_parse_char(t) {
                    Ok(c) => Ok(seq![c]),
                    Err(m) => Err(m),
                },
                (None, Some(q)) => spec_hex_chars(spec_words(q)),
                (Some(_), Some(_)) => Err(pair_message(f, ": specify `to` or `to_seq`, not both"@)),
                (None, None) => Err(pair_message(f, ": missing `to` or `to_seq`"@)),
            };
            match target {
                Err(m) => Err(m),
                Ok(cs) => if cs.len() == 0 {
                    Err(pair_message(f, ": target sequence is empty"@))
                } else {
                    Ok((f, cs))
                },
            }
        },
    }
}

/// An optional string by its view.
pub open spec fn opt_view(o: Option<String>) -> Option<Seq<char>> {
    match o {
        Some(s) => Some(s@),
        None => None,
    }
}

/// The view of a converted pair.
pub open spec fn pair_result_view(r: Result<PairMapping, String>) -> Result<(char, Seq<char>), Seq<char>> {
    match r {
        Ok(p) => Ok(pair_view(p)),
        Err(e) => Err(e@),
    }
}

fn pair_error(from: char, what: &str) -> (m: String)
    ensures
        m@ == pair_message(from, what@),
{
    let mut m = String::from_str("pair for U+");
    append_hex4(&mut m, from as u32);
    m.append(what);
    m
}

/// Checks a `[[pairs]]` entry and turns it into a pair mapping.
pub fn convert_pair(p: &PairToml) -> (res: Result<PairMapping, String>)
    ensures
        pair_result_view(res) == spec_convert_pair(p.from@, opt_view(p.to), opt_view(p.to_seq)),
{
    let from = match parse_hex_char(p.from.as_str()) {
        Ok(c) => c,
        Err(m) => return Err(m),
    };
    let target: Vec<char> = match (&p.to, &p.to_seq) {
        (Some(to), None) => match parse_hex_char(to.as_str()) {
            Ok(c) => {
                let mut v: Vec<char> = Vec::new();
                v.push(c);
                proof {
                    assert(v@ =~= seq![c]);
                }
                v
            },
            Err(m) => return Err(m),
        },
        (None, Some(seq)) => match parse_hex_seq(seq.as_str()) {
            Ok(v) => v,
            Err(m) => return Err(m),
        },
        (Some(_), Some(_)) => {
            return Err(pair_error(from, ": specify `to` or `to_seq`, not both"));
        },
        (None, None) => {
            return Err(pair_error(from, ": missing `to` or `to_seq`"));
        },
    };
    if target.len() == 0 {
        return Err(pair_error(from, ": target sequence is empty"));
    }
    Ok(PairMapping { from, target })
}

/// What each `[[ranges]]` entry turns into.
pub open spec fn range_results(rs: Seq<RangeToml>) -> Seq<Result<RangeMapping, Seq<char>>> {
    rs.map_values(|r: RangeToml| spec_convert_range(r.from_start@, r.from_end@, r.to_start@))
}

/// What each `[[pairs]]` entry turns into.
pub open spec fn pair_results(ps: Seq<PairToml>) -> Seq<Result<(char, Seq<char>), Seq<char>>> {
    ps.map_values(|p: PairToml| spec_convert_pair(p.from@, opt_view(p.to), opt_view(p.to_seq)))
}

/// The index and message of the first refused entry at or after `i`.
pub open spec fn first_error<T>(rs: Seq<Result<T, Seq<char>>>, i: int) -> Option<(int, Seq<char>)>
    decreases rs.len() - i,
{
    if i < 0 || i >= rs.len() {
        None
    } else {
        match rs[i] {
            Err(m) => Some((i, m)),
            Ok(_) => first_error(rs, i + 1),
        }
    }
}

/// The message for a refused entry of a mapping file: where it is, then
/// why.
pub open spec fn entry_message(source: Seq<char>, section: Seq<char>, i: int, m: Seq<char>) -> Seq<char> {
    source + ": "@ + section + "["@ + ascii_text(decimal(i as nat)) + "]: "@ + m
}

/// Why a mapping file is refused, if it is: its direction, else its
/// first bad range, else its first bad pair.
pub open spec fn mapping_file_error(file: MappingFile, source: Seq<char>) -> Option<Seq<char>> {
    match spec_direction(file.metadata.direction@) {
        Err(m) => Some(m),
        Ok(_) => match first_error(range_results(file.ranges@), 0) {
            Some((i, m)) => Some(entry_message(source, "ranges"@, i, m)),
            None => match first_error(pair_results(file.pairs@), 0) {
                Some((i, m)) => Some(entry_message(source, "pairs"@, i, m)),
                None => None,
            },
        },
    }
}

proof fn lemma_first_error_after_oks<T>(rs: Seq<Result<T, Seq<char>>>, i: int)
    requires
        0 <= i <= rs.len(),
        forall|j: int| 0 <= j < i ==> (#[trigger] rs[j]) is Ok,
    ensures
        first_error(rs, 0) == first_error(rs, i),
    decreases i,
{
    if i > 0 {
        lemma_first_error_after_oks(rs, i - 1);
        assert(rs[i - 1] is Ok);
    }
}

fn entry_error(source: &str, section: &str, i: usize, m: String) -> (e: String)
    ensures
        e@ == entry_message(source@, section@, i as int, m@),
{
    let mut e = String::from_str(source);
    e.append(": ");
    e.append(section);
    e.append("[");
    append_decimal(&mut e, i as u64);
    e.append("]: ");
    e.append(m.as_str());
    e
}

/// Checks a mapping file read from `source` and turns it into a mapping
/// set; the first refused part is reported, with where it is.
pub fn convert_mapping_file(file: MappingFile, source: &str) -> (r: Result<CharMappingSet, String>)
    ensures
        match mapping_file_error(file, source@) {
            Some(m) => r matches Err(e) && e@ == m,
            None => r matches Ok(set) && {
                &&& spec_direction(file.metadata.direction@) == Ok::<Direction, Seq<char>>(set.direction)
                &&& set.set_type == file.metadata.set_type
                &&& set.description == file.metadata.description
                &&& set.tags == file.metadata.tags
                &&& set.ranges@.len() == file.ranges@.len()
                &&& forall|i: int| 0 <= i < set.ranges@.len()
                    ==> range_results(file.ranges@)[i] == Ok::<RangeMapping, Seq<char>>(#[trigger] set.ranges@[i])
                &&& set.pairs@.len() == file.pairs@.len()
                &&& forall|i: int| 0 <= i < set.pairs@.len()
                    ==> pair_results(file.pairs@)[i] == Ok::<(char, Seq<char>), Seq<char>>(pair_view(#[trigger] set.pairs@[i]))
            },
        },
{
    let direction = match parse_direction(file.metadata.direction.as_str()) {
        Ok(d) => d,
        Err(m) => return Err(m),
    };
    let ghost rr = range_results(file.ranges@);
    let mut ranges: Vec<RangeMapping> = Vec::new();
    let mut i: usize = 0;
    while i < file.ranges.len()
        invariant
            spec_direction(file.metadata.direction@) == Ok::<Direction, Seq<char>>(direction),
            rr == range_results(file.ranges@),
            i <= file.ranges@.len(),
            ranges@.len() == i,
            forall|j: int| 0 <= j < i ==> rr[j] == Ok::<RangeMapping, Seq<char>>(#[trigger] ranges@[j]),
        decreases file.ranges@.len() - i,
    {
        let res = convert_range(&file.ranges[i]);
        match res {
            Ok(m) => ranges.push(m),
            Err(e) => {
                proof {
                    assert forall|j: int| 0 <= j < i implies (#[trigger] rr[j]) is Ok by {
                        assert(rr[j] == Ok::<RangeMapping, Seq<char>>(ranges@[j]));
                    }
                    lemma_first_error_after_oks(rr, i as int);
                }
                return Err(entry_error(source, "ranges", i, e));
            },
        }
        i += 1;
    }
    proof {
        assert forall|j: int| 0 <= j < i implies (#[trigger] rr[j]) is Ok by {
            assert(rr[j] == Ok::<RangeMapping, Seq<char>>(ranges@[j]));
        }
        lemma_first_error_after_oks(rr, i as int);
    }
    let ghost pr = pair_results(file.pairs@);
    let mut pairs: Vec<PairMapping> = Vec::new();
    let mut k: usize = 0;
    while k < file.pairs.len()
        invariant
            spec_direction(file.metadata.direction@) == Ok::<Direction, Seq<char>>(direction),
            first_error(range_results(file.ranges@), 0) is None,
            pr == pair_results(file.pairs@),
            k <= file.pairs@.len(),
            pairs@.len() == k,
            forall|j: int| 0 <= j < k ==> pr[j] == Ok::<(char, Seq<char>), Seq<char>>(pair_view(#[trigger] pairs@[j])),
        decreases file.pairs@.len() - k,
    {
        let res = convert_pair(&file.pairs[k]);
        match res {
            Ok(p) => pairs.push(p),
            Err(e) => {
                proof {
                    assert forall|j: int| 0 <= j < k implies (#[trigger] pr[j]) is Ok by {
                        assert(pr[j] == Ok::<(char, Seq<char>), Seq<char>>(pair_view(pairs@[j])));
                    }
                    lemma_first_error_after_oks(pr, k as int);
                }
                return Err(entry_error(source, "pairs", k, e));
            },
        }
        k += 1;
    }
    proof {
        assert forall|j: int| 0 <= j < k implies (#[trigger] pr[j]) is Ok by {
            assert(pr[j] == Ok::<(char, Seq<char>), Seq<char>>(pair_view(pairs@[j])));
        }
        lemma_first_error_after_oks(pr, k as int);
    }
    let MappingFile { metadata, ranges: _, pairs: _ } = file;
    let MetadataToml { set_type, description, direction: _, tags } = metadata;
    Ok(CharMappingSet { set_type, description, direction, tags, ranges, pairs })
}

/// The message refusing a second set of type `t`.
pub open spec fn duplicate_message(t: Seq<char>) -> Seq<char> {
    "distill-ansi: --unicode-map: rejecting duplicate type "@ + str_debug(t) + " (already loaded)"@
}

impl UnicodeMap {
    /// Merge a loaded set into this map, refusing one whose type is
    /// already loaded: the map is then unchanged and the error says so.
    pub fn load_and_merge(&mut self, set: CharMappingSet) -> (r: Result<(), String>)
        ensures
            has_set(old(self).spec_sets(), set.set_type@) ==> (r matches Err(e) && e@
                == duplicate_message(set.set_type@) && final(self).spec_sets() == old(self).spec_sets()),
            !has_set(old(self).spec_sets(), set.set_type@) ==> r is Ok && final(self).spec_sets()
                == old(self).spec_sets().push(set),
    {
        match self.merge_set(set) {
            Ok(()) => Ok(()),
            Err(dup) => {
                let mut m = String::from_str("distill-ansi: --unicode-map: rejecting duplicate type ");
                let d = debug_text(dup.as_str());
                m.append(d.as_str());
                m.append(" (already loaded)");
                Err(m)
            },
        }
    }
}

} // verus!
