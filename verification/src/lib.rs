//! Strip ANSI escape sequences from byte streams, with a verified
//! ECMA-48 state machine at its core.

mod classifier;
mod cli;
mod decimal;
pub mod detect;
pub mod distill;
pub mod downgrade;
mod filter;
pub mod options;
mod parser;
mod preset;
mod scan;
pub mod sgr_rewrite;
mod stats;
mod stream;
mod strip;
mod text;
mod writer;
mod threat_db;
mod toml_config;
pub mod threats;
mod transform_stream;
pub mod unicode_map;
pub mod unicode_toml;

pub use cli::Args;
pub use classifier::{
    map_osc_number, ClassifyingParser, OscType, ParamState, SeqAction, SeqDetail, SeqGroup,
    SeqKind, SgrContent,
};
pub use filter::{
    filter_strip, filter_strip_into, filter_strip_str, try_filter_strip_str, FilterConfig,
    FilterMode, FilterSlices, FilterStream,
};
pub use parser::{Action, Parser, State};
pub use stream::{StripSlices, StripStream};
pub use strip::{
    contains_ansi, strip, strip_ansi_bytes, strip_ansi_escapes, strip_in_place, strip_into,
    strip_str, try_strip_str,
};
pub use preset::TerminalPreset;
pub use stats::{KindCount, Stats, ThreatHit};
pub use threat_db::{ThreatDb, ThreatEntry, ThreatMatch};
pub use toml_config::{
    parse_filter_name, ConfigError, FilterName, FilterToml, GeneralConfig, StripAnsiConfig,
};
pub use transform_stream::{TransformConfig, TransformSlice, TransformSlices, TransformStream};
pub use writer::StripWriter;
