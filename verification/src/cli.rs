//! The options of the strip tool, as plain values. Reading them from the
//! command line is left to the program that uses the library.

use vstd::prelude::*;

use crate::options::NoStripFlags;

verus! {

/// Strip ANSI escape sequences from stdin or a file.
#[derive(Clone, Debug, Default)]
pub struct Args {
    /// Check for ANSI sequences without stripping (exit 1 if found).
    pub check: bool,
    /// Output only the first N lines (after stripping).
    pub head: Option<usize>,
    /// Keep reading after EOF (like `tail -f`).
    pub follow: bool,
    /// Write output to this file instead of stdout.
    pub output: Option<String>,
    /// Print the count of stripped bytes to stderr on exit.
    pub count: bool,
    /// Stop reading after this many bytes of input.
    pub max_size: Option<u64>,
    /// Input file (default: stdin).
    pub input: Option<String>,
    /// Preserve all CSI sequences.
    pub no_strip_csi: bool,
    /// Preserve OSC sequences.
    pub no_strip_osc: bool,
    /// Preserve DCS sequences.
    pub no_strip_dcs: bool,
    /// Preserve APC sequences.
    pub no_strip_apc: bool,
    /// Preserve PM sequences.
    pub no_strip_pm: bool,
    /// Preserve SOS sequences.
    pub no_strip_sos: bool,
    /// Preserve SS2 sequences.
    pub no_strip_ss2: bool,
    /// Preserve SS3 sequences.
    pub no_strip_ss3: bool,
    /// Preserve other Fe sequences.
    pub no_strip_fe: bool,
    /// Preserve SGR (colors and styles) only.
    pub no_strip_csi_sgr: bool,
    /// Preserve cursor movement only.
    pub no_strip_csi_cursor: bool,
    /// Preserve erase sequences only.
    pub no_strip_csi_erase: bool,
    /// Preserve scroll sequences only.
    pub no_strip_csi_scroll: bool,
    /// Preserve mode set and reset only.
    pub no_strip_csi_mode: bool,
    /// Preserve window manipulation only.
    pub no_strip_csi_window: bool,
    /// Load the filter configuration from this TOML file.
    pub config: Option<String>,
}

impl Args {
    /// The `--no-strip-*` options given.
    pub fn no_strip_flags(&self) -> (f: NoStripFlags)
        ensures
            f == (NoStripFlags {
                csi: self.no_strip_csi,
                osc: self.no_strip_osc,
                dcs: self.no_strip_dcs,
                apc: self.no_strip_apc,
                pm: self.no_strip_pm,
                sos: self.no_strip_sos,
                ss2: self.no_strip_ss2,
                ss3: self.no_strip_ss3,
                fe: self.no_strip_fe,
                csi_sgr: self.no_strip_csi_sgr,
                csi_cursor: self.no_strip_csi_cursor,
                csi_erase: self.no_strip_csi_erase,
                csi_scroll: self.no_strip_csi_scroll,
                csi_mode: self.no_strip_csi_mode,
                csi_window: self.no_strip_csi_window,
            }),
    {
        NoStripFlags {
            csi: self.no_strip_csi,
            osc: self.no_strip_osc,
            dcs: self.no_strip_dcs,
            apc: self.no_strip_apc,
            pm: self.no_strip_pm,
            sos: self.no_strip_sos,
            ss2: self.no_strip_ss2,
            ss3: self.no_strip_ss3,
            fe: self.no_strip_fe,
            csi_sgr: self.no_strip_csi_sgr,
            csi_cursor: self.no_strip_csi_cursor,
            csi_erase: self.no_strip_csi_erase,
            csi_scroll: self.no_strip_csi_scroll,
            csi_mode: self.no_strip_csi_mode,
            csi_window: self.no_strip_csi_window,
        }
    }
}

} // verus!
