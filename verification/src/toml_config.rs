//! The configuration file's content: general settings and the filter
//! specification, with its validation into a [`FilterConfig`].

use vstd::prelude::*;
use vstd::string::StringExecFns;

use crate::classifier::{SeqGroup, SeqKind};
use crate::decimal::{append_decimal, ascii_text, decimal};
use crate::filter::{FilterConfig, FilterMode, FilterModel};
use crate::options::{model_no_strip_group, model_no_strip_kind};
use crate::text::str_eq;

verus! {

/// `std::io::Error`, carried through as it is.
#[verifier::external_type_specification]
#[verifier::external_body]
pub struct ExIoError(std::io::Error);

/// Errors of loading or validating the configuration.
#[derive(Debug)]
pub enum ConfigError {
    /// File I/O error.
    Io(std::io::Error),
    /// TOML parse error.
    Parse(String),
    /// Validation error (unknown filter names, invalid values).
    Validation(String),
}

/// The `{:?}` text of a string: quoted, with escapes.
pub uninterp spec fn str_debug(s: Seq<char>) -> Seq<char>;

/// The `Debug` text of a string slice, by `format!("{:?}")`.
///
/// Trusted: the text depends on the string alone (it is the quoted,
/// escaped string); what it is exactly is left to `str_debug`.
#[verifier::external_body]
pub(crate) fn debug_text(s: &str) -> (r: String)
    ensures
        r@ == str_debug(s@),
{
    format!("{s:?}")
}

/// The `Display` text of an I/O error, by `format!("{}")`.
///
/// Trusted, with nothing stated: the text comes from the operating system.
#[verifier::external_body]
fn io_error_text(e: &std::io::Error) -> String {
    format!("{e}")
}

impl ConfigError {
    /// The error as a line of text: `I/O error: ...`, `TOML parse error:
    /// ...` or `validation error: ...`.
    pub fn message(&self) -> (m: String)
        ensures
            self matches ConfigError::Parse(t) ==> m@ == "TOML parse error: "@ + t@,
            self matches ConfigError::Validation(t) ==> m@ == "validation error: "@ + t@,
            self is Io ==> m@.len() >= "I/O error: "@.len() && m@.take("I/O error: "@.len() as int)
                == "I/O error: "@,
    {
        let mut m = String::new();
        match self {
            ConfigError::Io(e) => {
                m.append("I/O error: ");
                let t = io_error_text(e);
                m.append(t.as_str());
                proof {
                    assert(m@.take("I/O error: "@.len() as int) =~= "I/O error: "@);
                }
            },
            ConfigError::Parse(t) => {
                m.append("TOML parse error: ");
                m.append(t.as_str());
            },
            ConfigError::Validation(t) => {
                m.append("validation error: ");
                m.append(t.as_str());
            },
        }
        m
    }
}

/// Top-level configuration.
#[derive(Clone, Debug)]
pub struct StripAnsiConfig {
    /// General settings.
    pub general: GeneralConfig,
    /// Filter specification.
    pub filter: FilterToml,
}

/// General configuration settings.
#[derive(Clone, Debug)]
pub struct GeneralConfig {
    /// Buffer size in bytes. Default: 32768. Valid range: 1024..=16_777_216.
    pub buffer_size: usize,
    /// Operating mode: `"strip"` or `"check"`.
    pub mode: Option<String>,
}

/// The default buffer size.
pub const DEFAULT_BUFFER_SIZE: usize = 32768;

/// Smallest valid buffer size.
pub const MIN_BUFFER: usize = 1024;

/// Largest valid buffer size (16 MiB).
pub const MAX_BUFFER: usize = 16777216;

impl Default for GeneralConfig {
    fn default() -> (c: Self)
        ensures
            c.buffer_size == DEFAULT_BUFFER_SIZE,
            c.mode is None,
    {
        GeneralConfig { buffer_size: DEFAULT_BUFFER_SIZE, mode: None }
    }
}

/// Filter section of the configuration.
#[derive(Clone, Debug)]
pub struct FilterToml {
    /// Names of groups or sub-kinds to preserve (not strip).
    pub no_strip: Vec<String>,
}

impl Default for FilterToml {
    fn default() -> (f: Self)
        ensures
            f.no_strip@.len() == 0,
    {
        FilterToml { no_strip: Vec::new() }
    }
}

/// A resolved filter name: a group or a specific sub-kind.
#[derive(Copy, Clone, Debug, PartialEq, Eq, Structural)]
pub enum FilterName {
    Group(SeqGroup),
    Kind(SeqKind),
}

/// What a snake_case filter name stands for.
pub open spec fn spec_filter_name(n: Seq<char>) -> Option<FilterName> {
    if n == "csi"@ {
        Some(FilterName::Group(SeqGroup::Csi))
    } else if n == "osc"@ {
        Some(FilterName::Group(SeqGroup::Osc))
    } else if n == "dcs"@ {
        Some(FilterName::Group(SeqGroup::Dcs))
    } else if n == "apc"@ {
        Some(FilterName::Group(SeqGroup::Apc))
    } else if n == "pm"@ {
        Some(FilterName::Group(SeqGroup::Pm))
    } else if n == "sos"@ {
        Some(FilterName::Group(SeqGroup::Sos))
    } else if n == "ss2"@ {
        Some(FilterName::Group(SeqGroup::Ss2))
    } else if n == "ss3"@ {
        Some(FilterName::Group(SeqGroup::Ss3))
    } else if n == "fe"@ {
        Some(FilterName::Group(SeqGroup::Fe))
    } else if n == "csi_sgr"@ {
        Some(FilterName::Kind(SeqKind::CsiSgr))
    } else if n == "csi_cursor"@ {
        Some(FilterName::Kind(SeqKind::CsiCursor))
    } else if n == "csi_erase"@ {
        Some(FilterName::Kind(SeqKind::CsiErase))
    } else if n == "csi_scroll"@ {
        Some(FilterName::Kind(SeqKind::CsiScroll))
    } else if n == "csi_mode"@ {
        Some(FilterName::Kind(SeqKind::CsiMode))
    } else if n == "csi_device_status"@ {
        Some(FilterName::Kind(SeqKind::CsiDeviceStatus))
    } else if n == "csi_window"@ {
        Some(FilterName::Kind(SeqKind::CsiWindow))
    } else if n == "csi_other"@ {
        Some(FilterName::Kind(SeqKind::CsiOther))
    } else {
        None
    }
}

/// The message of an unknown filter name.
pub open spec fn unknown_name_message(n: Seq<char>) -> Seq<char> {
    "unknown filter name: "@ + str_debug(n)
}

/// Parse a snake_case filter name into a group or sub-kind.
pub fn parse_filter_name(name: &str) -> (r: Result<FilterName, ConfigError>)
    ensures
        r is Ok <==> spec_filter_name(name@) is Some,
        r matches Ok(f) ==> spec_filter_name(name@) == Some(f),
        r matches Err(e) ==> e matches ConfigError::Validation(m) && m@ == unknown_name_message(name@),
{
    if str_eq(name, "csi") {
        Ok(FilterName::Group(SeqGroup::Csi))
    } else if str_eq(name, "osc") {
        Ok(FilterName::Group(SeqGroup::Osc))
    } else if str_eq(name, "dcs") {
        Ok(FilterName::Group(SeqGroup::Dcs))
    } else if str_eq(name, "apc") {
        Ok(FilterName::Group(SeqGroup::Apc))
    } else if str_eq(name, "pm") {
        Ok(FilterName::Group(SeqGroup::Pm))
    } else if str_eq(name, "sos") {
        Ok(FilterName::Group(SeqGroup::Sos))
    } else if str_eq(name, "ss2") {
        Ok(FilterName::Group(SeqGroup::Ss2))
    } else if str_eq(name, "ss3") {
        Ok(FilterName::Group(SeqGroup::Ss3))
    } else if str_eq(name, "fe") {
        Ok(FilterName::Group(SeqGroup::Fe))
    } else if str_eq(name, "csi_sgr") {
        Ok(FilterName::Kind(SeqKind::CsiSgr))
    } else if str_eq(name, "csi_cursor") {
        Ok(FilterName::Kind(SeqKind::CsiCursor))
    } else if str_eq(name, "csi_erase") {
        Ok(FilterName::Kind(SeqKind::CsiErase))
    } else if str_eq(name, "csi_scroll") {
        Ok(FilterName::Kind(SeqKind::CsiScroll))
    } else if str_eq(name, "csi_mode") {
        Ok(FilterName::Kind(SeqKind::CsiMode))
    } else if str_eq(name, "csi_device_status") {
        Ok(FilterName::Kind(SeqKind::CsiDeviceStatus))
    } else if str_eq(name, "csi_window") {
        Ok(FilterName::Kind(SeqKind::CsiWindow))
    } else if str_eq(name, "csi_other") {
        Ok(FilterName::Kind(SeqKind::CsiOther))
    } else {
        let mut m = String::new();
        m.append("unknown filter name: ");
        let d = debug_text(name);
        m.append(d.as_str());
        Err(ConfigError::Validation(m))
    }
}

/// The strip-all configuration.
pub open spec fn strip_all_model() -> FilterModel {
    FilterModel {
        mode: FilterMode::StripAll,
        preserved: 0,
        sub_preserved: Seq::empty(),
        sgr_mask: 0,
        osc_preserve: Seq::empty(),
    }
}

/// Applying the first `n` names to strip-all: the configuration, or the
/// first name that is not a filter name.
pub open spec fn names_result(names: Seq<Seq<char>>, n: int) -> Result<FilterModel, Seq<char>>
    decreases n,
{
    if n <= 0 {
        Ok(strip_all_model())
    } else {
        match names_result(names, n - 1) {
            Err(bad) => Err(bad),
            Ok(c) => match spec_filter_name(names[n - 1]) {
                Some(FilterName::Group(g)) => Ok(model_no_strip_group(c, g)),
                Some(FilterName::Kind(k)) => Ok(model_no_strip_kind(c, k)),
                None => Err(names[n - 1]),
            },
        }
    }
}

/// The message of a buffer size out of range.
pub open spec fn buffer_message(size: usize) -> Seq<char> {
    "buffer_size "@ + ascii_text(decimal(size as nat)) + " is out of range (1024..=16777216)"@
}

impl StripAnsiConfig {
    /// The names under `no_strip`, as character sequences.
    pub open spec fn no_strip_names(&self) -> Seq<Seq<char>> {
        self.filter.no_strip@.map_values(|s: String| s@)
    }

    /// Convert the configuration into a validated [`FilterConfig`]: the
    /// buffer size must lie in `1024..=16_777_216`, every `no_strip` name
    /// must be a group or sub-kind name (duplicates are ignored), and no
    /// names give the strip-all configuration.
    pub fn to_filter_config(&self) -> (r: Result<FilterConfig, ConfigError>)
        ensures
            (self.general.buffer_size < MIN_BUFFER || self.general.buffer_size > MAX_BUFFER) ==> (
            r matches Err(ConfigError::Validation(m)) && m@ == buffer_message(
                self.general.buffer_size,
            )),
            MIN_BUFFER <= self.general.buffer_size <= MAX_BUFFER ==> match names_result(
                self.no_strip_names(),
                self.no_strip_names().len() as int,
            ) {
                Ok(c) => r matches Ok(fc) && fc@ == c,
                Err(bad) => r matches Err(ConfigError::Validation(m)) && m@ == unknown_name_message(
                    bad,
                ),
            },
    {
        if self.general.buffer_size < MIN_BUFFER || self.general.buffer_size > MAX_BUFFER {
            let mut m = String::new();
            m.append("buffer_size ");
            append_decimal(&mut m, self.general.buffer_size as u64);
            m.append(" is out of range (1024..=16777216)");
            return Err(ConfigError::Validation(m));
        }
        let ghost names = self.no_strip_names();
        let mut config = FilterConfig::strip_all();
        let n = self.filter.no_strip.len();
        let mut i: usize = 0;
        while i < n
            invariant
                n == self.filter.no_strip@.len(),
                i <= n,
                names == self.no_strip_names(),
                names_result(names, i as int) == Ok::<FilterModel, Seq<char>>(config@),
                MIN_BUFFER <= self.general.buffer_size <= MAX_BUFFER,
            decreases n - i,
        {
            let name = &self.filter.no_strip[i];
            proof {
                assert(names[i as int] == name@);
            }
            match parse_filter_name(name.as_str()) {
                Ok(FilterName::Group(g)) => {
                    config = config.no_strip_group(g);
                },
                Ok(FilterName::Kind(k)) => {
                    config = config.no_strip_kind(k);
                },
                Err(e) => {
                    proof {
                        lemma_names_result_stays_err(names, i as int + 1, n as int);
                    }
                    return Err(e);
                },
            }
            i += 1;
        }
        Ok(config)
    }
}

/// Applying a filter name to a configuration.
pub open spec fn apply_name(c: FilterModel, f: FilterName) -> FilterModel {
    match f {
        FilterName::Group(g) => model_no_strip_group(c, g),
        FilterName::Kind(k) => model_no_strip_kind(c, k),
    }
}

/// Duplicate names are ignored: applying a name twice is applying it once.
pub proof fn law_duplicate_name_idempotent(c: FilterModel, f: FilterName)
    ensures
        apply_name(apply_name(c, f), f) == apply_name(c, f),
{
    match f {
        FilterName::Group(g) => {
            let b = crate::filter::spec_group_bit(g);
            let p = c.preserved;
            assert((p | b) | b == p | b) by (bit_vector);
        },
        FilterName::Kind(k) => {
            if !c.sub_preserved.contains(k) {
                assert(c.sub_preserved.push(k)[c.sub_preserved.len() as int] == k);
            }
        },
    }
}

/// Once a name is refused, later names change nothing.
proof fn lemma_names_result_stays_err(names: Seq<Seq<char>>, i: int, n: int)
    requires
        0 < i <= n,
        names_result(names, i) is Err,
    ensures
        names_result(names, n) == names_result(names, i),
    decreases n - i,
{
    if i < n {
        lemma_names_result_stays_err(names, i + 1, n);
    }
}

} // verus!
