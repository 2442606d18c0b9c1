//! Threat database: the built-in echoback patterns, extendable with
//! external entries (additive only).

use vstd::prelude::*;

use crate::classifier::{SeqDetail, SeqKind};
use crate::text::{spells, str_eq};

verus! {

/// The name a kind has in threat patterns.
pub open spec fn spec_kind_name(k: SeqKind) -> Seq<char> {
    match k {
        SeqKind::CsiSgr => "CsiSgr"@,
        SeqKind::CsiCursor => "CsiCursor"@,
        SeqKind::CsiErase => "CsiErase"@,
        SeqKind::CsiScroll => "CsiScroll"@,
        SeqKind::CsiMode => "CsiMode"@,
        SeqKind::CsiDeviceStatus => "CsiDeviceStatus"@,
        SeqKind::CsiWindow => "CsiWindow"@,
        SeqKind::CsiQuery => "CsiQuery"@,
        SeqKind::CsiOther => "CsiOther"@,
        SeqKind::Osc => "Osc"@,
        SeqKind::Dcs => "Dcs"@,
        SeqKind::Apc => "Apc"@,
        SeqKind::Pm => "Pm"@,
        SeqKind::Sos => "Sos"@,
        SeqKind::Ss2 => "Ss2"@,
        SeqKind::Ss3 => "Ss3"@,
        SeqKind::Fe => "Fe"@,
        SeqKind::Unknown => "Unknown"@,
    }
}

/// The kind a threat-pattern name stands for, if any.
pub open spec fn spec_parse_kind(n: Seq<char>) -> Option<SeqKind> {
    if n == "CsiSgr"@ {
        Some(SeqKind::CsiSgr)
    } else if n == "CsiCursor"@ {
        Some(SeqKind::CsiCursor)
    } else if n == "CsiErase"@ {
        Some(SeqKind::CsiErase)
    } else if n == "CsiScroll"@ {
        Some(SeqKind::CsiScroll)
    } else if n == "CsiMode"@ {
        Some(SeqKind::CsiMode)
    } else if n == "CsiDeviceStatus"@ {
        Some(SeqKind::CsiDeviceStatus)
    } else if n == "CsiWindow"@ {
        Some(SeqKind::CsiWindow)
    } else if n == "CsiQuery"@ {
        Some(SeqKind::CsiQuery)
    } else if n == "CsiOther"@ {
        Some(SeqKind::CsiOther)
    } else if n == "Osc"@ {
        Some(SeqKind::Osc)
    } else if n == "Dcs"@ {
        Some(SeqKind::Dcs)
    } else if n == "Apc"@ {
        Some(SeqKind::Apc)
    } else if n == "Pm"@ {
        Some(SeqKind::Pm)
    } else if n == "Sos"@ {
        Some(SeqKind::Sos)
    } else if n == "Ss2"@ {
        Some(SeqKind::Ss2)
    } else if n == "Ss3"@ {
        Some(SeqKind::Ss3)
    } else if n == "Fe"@ {
        Some(SeqKind::Fe)
    } else if n == "Unknown"@ {
        Some(SeqKind::Unknown)
    } else {
        None
    }
}

/// Parse a kind name (`"Dcs"`, `"Osc"`, `"CsiQuery"`, ...) to the kind.
pub fn parse_seq_kind(name: &str) -> (r: Option<SeqKind>)
    ensures
        r == spec_parse_kind(name@),
{
    if str_eq(name, "CsiSgr") {
        Some(SeqKind::CsiSgr)
    } else if str_eq(name, "CsiCursor") {
        Some(SeqKind::CsiCursor)
    } else if str_eq(name, "CsiErase") {
        Some(SeqKind::CsiErase)
    } else if str_eq(name, "CsiScroll") {
        Some(SeqKind::CsiScroll)
    } else if str_eq(name, "CsiMode") {
        Some(SeqKind::CsiMode)
    } else if str_eq(name, "CsiDeviceStatus") {
        Some(SeqKind::CsiDeviceStatus)
    } else if str_eq(name, "CsiWindow") {
        Some(SeqKind::CsiWindow)
    } else if str_eq(name, "CsiQuery") {
        Some(SeqKind::CsiQuery)
    } else if str_eq(name, "CsiOther") {
        Some(SeqKind::CsiOther)
    } else if str_eq(name, "Osc") {
        Some(SeqKind::Osc)
    } else if str_eq(name, "Dcs") {
        Some(SeqKind::Dcs)
    } else if str_eq(name, "Apc") {
        Some(SeqKind::Apc)
    } else if str_eq(name, "Pm") {
        Some(SeqKind::Pm)
    } else if str_eq(name, "Sos") {
        Some(SeqKind::Sos)
    } else if str_eq(name, "Ss2") {
        Some(SeqKind::Ss2)
    } else if str_eq(name, "Ss3") {
        Some(SeqKind::Ss3)
    } else if str_eq(name, "Fe") {
        Some(SeqKind::Fe)
    } else if str_eq(name, "Unknown") {
        Some(SeqKind::Unknown)
    } else {
        None
    }
}

/// The name of a kind, as used in threat-pattern `kind` fields.
pub fn seq_kind_name(kind: SeqKind) -> (n: &'static str)
    ensures
        n@ == spec_kind_name(kind),
{
    match kind {
        SeqKind::CsiSgr => "CsiSgr",
        SeqKind::CsiCursor => "CsiCursor",
        SeqKind::CsiErase => "CsiErase",
        SeqKind::CsiScroll => "CsiScroll",
        SeqKind::CsiMode => "CsiMode",
        SeqKind::CsiDeviceStatus => "CsiDeviceStatus",
        SeqKind::CsiWindow => "CsiWindow",
        SeqKind::CsiQuery => "CsiQuery",
        SeqKind::CsiOther => "CsiOther",
        SeqKind::Osc => "Osc",
        SeqKind::Dcs => "Dcs",
        SeqKind::Apc => "Apc",
        SeqKind::Pm => "Pm",
        SeqKind::Sos => "Sos",
        SeqKind::Ss2 => "Ss2",
        SeqKind::Ss3 => "Ss3",
        SeqKind::Fe => "Fe",
        SeqKind::Unknown => "Unknown",
    }
}

/// Every kind's name parses back to that kind.
pub proof fn law_kind_name_roundtrip(k: SeqKind)
    ensures
        spec_parse_kind(spec_kind_name(k)) == Some(k),
{
    reveal_strlit("CsiSgr");
    reveal_strlit("CsiCursor");
    reveal_strlit("CsiErase");
    reveal_strlit("CsiScroll");
    reveal_strlit("CsiMode");
    reveal_strlit("CsiDeviceStatus");
    reveal_strlit("CsiWindow");
    reveal_strlit("CsiQuery");
    reveal_strlit("CsiOther");
    reveal_strlit("Osc");
    reveal_strlit("Dcs");
    reveal_strlit("Apc");
    reveal_strlit("Pm");
    reveal_strlit("Sos");
    reveal_strlit("Ss2");
    reveal_strlit("Ss3");
    reveal_strlit("Fe");
    reveal_strlit("Unknown");
    match k {
        SeqKind::CsiSgr => {
            assert("CsiSgr"@.len() != "CsiCursor"@.len());
            assert("CsiSgr"@.len() != "CsiErase"@.len());
            assert("CsiSgr"@.len() != "CsiScroll"@.len());
            assert("CsiSgr"@.len() != "CsiMode"@.len());
            assert("CsiSgr"@.len() != "CsiDeviceStatus"@.len());
            assert("CsiSgr"@.len() != "CsiWindow"@.len());
            assert("CsiSgr"@.len() != "CsiQuery"@.len());
            assert("CsiSgr"@.len() != "CsiOther"@.len());
            assert("CsiSgr"@.len() != "Osc"@.len());
            assert("CsiSgr"@.len() != "Dcs"@.len());
            assert("CsiSgr"@.len() != "Apc"@.len());
            assert("CsiSgr"@.len() != "Pm"@.len());
            assert("CsiSgr"@.len() != "Sos"@.len());
            assert("CsiSgr"@.len() != "Ss2"@.len());
            assert("CsiSgr"@.len() != "Ss3"@.len());
            assert("CsiSgr"@.len() != "Fe"@.len());
            assert("CsiSgr"@.len() != "Unknown"@.len());
        },
        SeqKind::CsiCursor => {
            assert("CsiCursor"@.len() != "CsiSgr"@.len());
            assert("CsiCursor"@.len() != "CsiErase"@.len());
            assert("CsiCursor"@[3] != "CsiScroll"@[3]);
            assert("CsiCursor"@.len() != "CsiMode"@.len());
            assert("CsiCursor"@.len() != "CsiDeviceStatus"@.len());
            assert("CsiCursor"@[3] != "CsiWindow"@[3]);
            assert("CsiCursor"@.len() != "CsiQuery"@.len());
            assert("CsiCursor"@.len() != "CsiOther"@.len());
            assert("CsiCursor"@.len() != "Osc"@.len());
            assert("CsiCursor"@.len() != "Dcs"@.len());
            assert("CsiCursor"@.len() != "Apc"@.len());
            assert("CsiCursor"@.len() != "Pm"@.len());
            assert("CsiCursor"@.len() != "Sos"@.len());
            assert("CsiCursor"@.len() != "Ss2"@.len());
            assert("CsiCursor"@.len() != "Ss3"@.len());
            assert("CsiCursor"@.len() != "Fe"@.len());
            assert("CsiCursor"@.len() != "Unknown"@.len());
        },
        SeqKind::CsiErase => {
            assert("CsiErase"@.len() != "CsiSgr"@.len());
            assert("CsiErase"@.len() != "CsiCursor"@.len());
            assert("CsiErase"@.len() != "CsiScroll"@.len());
            assert("CsiErase"@.len() != "CsiMode"@.len());
            assert("CsiErase"@.len() != "CsiDeviceStatus"@.len());
            assert("CsiErase"@.len() != "CsiWindow"@.len());
            assert("CsiErase"@[3] != "CsiQuery"@[3]);
            assert("CsiErase"@[3] != "CsiOther"@[3]);
            assert("CsiErase"@.len() != "Osc"@.len());
            assert("CsiErase"@.len() != "Dcs"@.len());
            assert("CsiErase"@.len() != "Apc"@.len());
            assert("CsiErase"@.len() != "Pm"@.len());
            assert("CsiErase"@.len() != "Sos"@.len());
            assert("CsiErase"@.len() != "Ss2"@.len());
            assert("CsiErase"@.len() != "Ss3"@.len());
            assert("CsiErase"@.len() != "Fe"@.len());
            assert("CsiErase"@.len() != "Unknown"@.len());
        },
        SeqKind::CsiScroll => {
            assert("CsiScroll"@.len() != "CsiSgr"@.len());
            assert("CsiScroll"@[3] != "CsiCursor"@[3]);
            assert("CsiScroll"@.len() != "CsiErase"@.len());
            assert("CsiScroll"@.len() != "CsiMode"@.len());
            assert("CsiScroll"@.len() != "CsiDeviceStatus"@.len());
            assert("CsiScroll"@[3] != "CsiWindow"@[3]);
            assert("CsiScroll"@.len() != "CsiQuery"@.len());
            assert("CsiScroll"@.len() != "CsiOther"@.len());
            assert("CsiScroll"@.len() != "Osc"@.len());
            assert("CsiScroll"@.len() != "Dcs"@.len());
            assert("CsiScroll"@.len() != "Apc"@.len());
            assert("CsiScroll"@.len() != "Pm"@.len());
            assert("CsiScroll"@.len() != "Sos"@.len());
            assert("CsiScroll"@.len() != "Ss2"@.len());
            assert("CsiScroll"@.len() != "Ss3"@.len());
            assert("CsiScroll"@.len() != "Fe"@.len());
            assert("CsiScroll"@.len() != "Unknown"@.len());
        },
        SeqKind::CsiMode => {
            assert("CsiMode"@.len() != "CsiSgr"@.len());
            assert("CsiMode"@.len() != "CsiCursor"@.len());
            assert("CsiMode"@.len() != "CsiErase"@.len());
            assert("CsiMode"@.len() != "CsiScroll"@.len());
            assert("CsiMode"@.len() != "CsiDeviceStatus"@.len());
            assert("CsiMode"@.len() != "CsiWindow"@.len());
            assert("CsiMode"@.len() != "CsiQuery"@.len());
            assert("CsiMode"@.len() != "CsiOther"@.len());
            assert("CsiMode"@.len() != "Osc"@.len());
            assert("CsiMode"@.len() != "Dcs"@.len());
            assert("CsiMode"@.len() != "Apc"@.len());
            assert("CsiMode"@.len() != "Pm"@.len());
            assert("CsiMode"@.len() != "Sos"@.len());
            assert("CsiMode"@.len() != "Ss2"@.len());
            assert("CsiMode"@.len() != "Ss3"@.len());
            assert("CsiMode"@.len() != "Fe"@.len());
            assert("CsiMode"@[0] != "Unknown"@[0]);
        },
        SeqKind::CsiDeviceStatus => {
            assert("CsiDeviceStatus"@.len() != "CsiSgr"@.len());
            assert("CsiDeviceStatus"@.len() != "CsiCursor"@.len());
            assert("CsiDeviceStatus"@.len() != "CsiErase"@.len());
            assert("CsiDeviceStatus"@.len() != "CsiScroll"@.len());
            assert("CsiDeviceStatus"@.len() != "CsiMode"@.len());
            assert("CsiDeviceStatus"@.len() != "CsiWindow"@.len());
            assert("CsiDeviceStatus"@.len() != "CsiQuery"@.len());
            assert("CsiDeviceStatus"@.len() != "CsiOther"@.len());
            assert("CsiDeviceStatus"@.len() != "Osc"@.len());
            assert("CsiDeviceStatus"@.len() != "Dcs"@.len());
            assert("CsiDeviceStatus"@.len() != "Apc"@.len());
            assert("CsiDeviceStatus"@.len() != "Pm"@.len());
            assert("CsiDeviceStatus"@.len() != "Sos"@.len());
            assert("CsiDeviceStatus"@.len() != "Ss2"@.len());
            assert("CsiDeviceStatus"@.len() != "Ss3"@.len());
            assert("CsiDeviceStatus"@.len() != "Fe"@.len());
            assert("CsiDeviceStatus"@.len() != "Unknown"@.len());
        },
        SeqKind::CsiWindow => {
            assert("CsiWindow"@.len() != "CsiSgr"@.len());
            assert("CsiWindow"@[3] != "CsiCursor"@[3]);
            assert("CsiWindow"@.len() != "CsiErase"@.len());
            assert("CsiWindow"@[3] != "CsiScroll"@[3]);
            assert("CsiWindow"@.len() != "CsiMode"@.len());
            assert("CsiWindow"@.len() != "CsiDeviceStatus"@.len());
            assert("CsiWindow"@.len() != "CsiQuery"@.len());
            assert("CsiWindow"@.len() != "CsiOther"@.len());
            assert("CsiWindow"@.len() != "Osc"@.len());
            assert("CsiWindow"@.len() != "Dcs"@.len());
            assert("CsiWindow"@.len() != "Apc"@.len());
            assert("CsiWindow"@.len() != "Pm"@.len());
            assert("CsiWindow"@.len() != "Sos"@.len());
            assert("CsiWindow"@.len() != "Ss2"@.len());
            assert("CsiWindow"@.len() != "Ss3"@.len());
            assert("CsiWindow"@.len() != "Fe"@.len());
            assert("CsiWindow"@.len() != "Unknown"@.len());
        },
        SeqKind::CsiQuery => {
            assert("CsiQuery"@.len() != "CsiSgr"@.len());
            assert("CsiQuery"@.len() != "CsiCursor"@.len());
            assert("CsiQuery"@[3] != "CsiErase"@[3]);
            assert("CsiQuery"@.len() != "CsiScroll"@.len());
            assert("CsiQuery"@.len() != "CsiMode"@.len());
            assert("CsiQuery"@.len() != "CsiDeviceStatus"@.len());
            assert("CsiQuery"@.len() != "CsiWindow"@.len());
            assert("CsiQuery"@[3] != "CsiOther"@[3]);
            assert("CsiQuery"@.len() != "Osc"@.len());
            assert("CsiQuery"@.len() != "Dcs"@.len());
            assert("CsiQuery"@.len() != "Apc"@.len());
            assert("CsiQuery"@.len() != "Pm"@.len());
            assert("CsiQuery"@.len() != "Sos"@.len());
            assert("CsiQuery"@.len() != "Ss2"@.len());
            assert("CsiQuery"@.len() != "Ss3"@.len());
            assert("CsiQuery"@.len() != "Fe"@.len());
            assert("CsiQuery"@.len() != "Unknown"@.len());
        },
        SeqKind::CsiOther => {
            assert("CsiOther"@.len() != "CsiSgr"@.len());
            assert("CsiOther"@.len() != "CsiCursor"@.len());
            assert("CsiOther"@[3] != "CsiErase"@[3]);
            assert("CsiOther"@.len() != "CsiScroll"@.len());
            assert("CsiOther"@.len() != "CsiMode"@.len());
            assert("CsiOther"@.len() != "CsiDeviceStatus"@.len());
            assert("CsiOther"@.len() != "CsiWindow"@.len());
            assert("CsiOther"@[3] != "CsiQuery"@[3]);
            assert("CsiOther"@.len() != "Osc"@.len());
            assert("CsiOther"@.len() != "Dcs"@.len());
            assert("CsiOther"@.len() != "Apc"@.len());
            assert("CsiOther"@.len() != "Pm"@.len());
            assert("CsiOther"@.len() != "Sos"@.len());
            assert("CsiOther"@.len() != "Ss2"@.len());
            assert("CsiOther"@.len() != "Ss3"@.len());
            assert("CsiOther"@.len() != "Fe"@.len());
            assert("CsiOther"@.len() != "Unknown"@.len());
        },
        SeqKind::Osc => {
            assert("Osc"@.len() != "CsiSgr"@.len());
            assert("Osc"@.len() != "CsiCursor"@.len());
            assert("Osc"@.len() != "CsiErase"@.len());
            assert("Osc"@.len() != "CsiScroll"@.len());
            assert("Osc"@.len() != "CsiMode"@.len());
            assert("Osc"@.len() != "CsiDeviceStatus"@.len());
            assert("Osc"@.len() != "CsiWindow"@.len());
            assert("Osc"@.len() != "CsiQuery"@.len());
            assert("Osc"@.len() != "CsiOther"@.len());
            assert("Osc"@[0] != "Dcs"@[0]);
            assert("Osc"@[0] != "Apc"@[0]);
            assert("Osc"@.len() != "Pm"@.len());
            assert("Osc"@[0] != "Sos"@[0]);
            assert("Osc"@[0] != "Ss2"@[0]);
            assert("Osc"@[0] != "Ss3"@[0]);
            assert("Osc"@.len() != "Fe"@.len());
            assert("Osc"@.len() != "Unknown"@.len());
        },
        SeqKind::Dcs => {
            assert("Dcs"@.len() != "CsiSgr"@.len());
            assert("Dcs"@.len() != "CsiCursor"@.len());
            assert("Dcs"@.len() != "CsiErase"@.len());
            assert("Dcs"@.len() != "CsiScroll"@.len());
            assert("Dcs"@.len() != "CsiMode"@.len());
            assert("Dcs"@.len() != "CsiDeviceStatus"@.len());
            assert("Dcs"@.len() != "CsiWindow"@.len());
            assert("Dcs"@.len() != "CsiQuery"@.len());
            assert("Dcs"@.len() != "CsiOther"@.len());
            assert("Dcs"@[0] != "Osc"@[0]);
            assert("Dcs"@[0] != "Apc"@[0]);
            assert("Dcs"@.len() != "Pm"@.len());
            assert("Dcs"@[0] != "Sos"@[0]);
            assert("Dcs"@[0] != "Ss2"@[0]);
            assert("Dcs"@[0] != "Ss3"@[0]);
            assert("Dcs"@.len() != "Fe"@.len());
            assert("Dcs"@.len() != "Unknown"@.len());
        },
        SeqKind::Apc => {
            assert("Apc"@.len() != "CsiSgr"@.len());
            assert("Apc"@.len() != "CsiCursor"@.len());
            assert("Apc"@.len() != "CsiErase"@.len());
            assert("Apc"@.len() != "CsiScroll"@.len());
            assert("Apc"@.len() != "CsiMode"@.len());
            assert("Apc"@.len() != "CsiDeviceStatus"@.len());
            assert("Apc"@.len() != "CsiWindow"@.len());
            assert("Apc"@.len() != "CsiQuery"@.len());
            assert("Apc"@.len() != "CsiOther"@.len());
            assert("Apc"@[0] != "Osc"@[0]);
            assert("Apc"@[0] != "Dcs"@[0]);
            assert("Apc"@.len() != "Pm"@.len());
            assert("Apc"@[0] != "Sos"@[0]);
            assert("Apc"@[0] != "Ss2"@[0]);
            assert("Apc"@[0] != "Ss3"@[0]);
            assert("Apc"@.len() != "Fe"@.len());
            assert("Apc"@.len() != "Unknown"@.len());
        },
        SeqKind::Pm => {
            assert("Pm"@.len() != "CsiSgr"@.len());
            assert("Pm"@.len() != "CsiCursor"@.len());
            assert("Pm"@.len() != "CsiErase"@.len());
            assert("Pm"@.len() != "CsiScroll"@.len());
            assert("Pm"@.len() != "CsiMode"@.len());
            assert("Pm"@.len() != "CsiDeviceStatus"@.len());
            assert("Pm"@.len() != "CsiWindow"@.len());
            assert("Pm"@.len() != "CsiQuery"@.len());
            assert("Pm"@.len() != "CsiOther"@.len());
            assert("Pm"@.len() != "Osc"@.len());
            assert("Pm"@.len() != "Dcs"@.len());
            assert("Pm"@.len() != "Apc"@.len());
            assert("Pm"@.len() != "Sos"@.len());
            assert("Pm"@.len() != "Ss2"@.len());
            assert("Pm"@.len() != "Ss3"@.len());
            assert("Pm"@[0] != "Fe"@[0]);
            assert("Pm"@.len() != "Unknown"@.len());
        },
        SeqKind::Sos => {
            assert("Sos"@.len() != "CsiSgr"@.len());
            assert("Sos"@.len() != "CsiCursor"@.len());
            assert("Sos"@.len() != "CsiErase"@.len());
            assert("Sos"@.len() != "CsiScroll"@.len());
            assert("Sos"@.len() != "CsiMode"@.len());
            assert("Sos"@.len() != "CsiDeviceStatus"@.len());
            assert("Sos"@.len() != "CsiWindow"@.len());
            assert("Sos"@.len() != "CsiQuery"@.len());
            assert("Sos"@.len() != "CsiOther"@.len());
            assert("Sos"@[0] != "Osc"@[0]);
            assert("Sos"@[0] != "Dcs"@[0]);
            assert("Sos"@[0] != "Apc"@[0]);
            assert("Sos"@.len() != "Pm"@.len());
            assert("Sos"@[1] != "Ss2"@[1]);
            assert("Sos"@[1] != "Ss3"@[1]);
            assert("Sos"@.len() != "Fe"@.len());
            assert("Sos"@.len() != "Unknown"@.len());
        },
        SeqKind::Ss2 => {
            assert("Ss2"@.len() != "CsiSgr"@.len());
            assert("Ss2"@.len() != "CsiCursor"@.len());
            assert("Ss2"@.len() != "CsiErase"@.len());
            assert("Ss2"@.len() != "CsiScroll"@.len());
            assert("Ss2"@.len() != "CsiMode"@.len());
            assert("Ss2"@.len() != "CsiDeviceStatus"@.len());
            assert("Ss2"@.len() != "CsiWindow"@.len());
            assert("Ss2"@.len() != "CsiQuery"@.len());
            assert("Ss2"@.len() != "CsiOther"@.len());
            assert("Ss2"@[0] != "Osc"@[0]);
            assert("Ss2"@[0] != "Dcs"@[0]);
            assert("Ss2"@[0] != "Apc"@[0]);
            assert("Ss2"@.len() != "Pm"@.len());
            assert("Ss2"@[1] != "Sos"@[1]);
            assert("Ss2"@[2] != "Ss3"@[2]);
            assert("Ss2"@.len() != "Fe"@.len());
            assert("Ss2"@.len() != "Unknown"@.len());
        },
        SeqKind::Ss3 => {
            assert("Ss3"@.len() != "CsiSgr"@.len());
            assert("Ss3"@.len() != "CsiCursor"@.len());
            assert("Ss3"@.len() != "CsiErase"@.len());
            assert("Ss3"@.len() != "CsiScroll"@.len());
            assert("Ss3"@.len() != "CsiMode"@.len());
            assert("Ss3"@.len() != "CsiDeviceStatus"@.len());
            assert("Ss3"@.len() != "CsiWindow"@.len());
            assert("Ss3"@.len() != "CsiQuery"@.len());
            assert("Ss3"@.len() != "CsiOther"@.len());
            assert("Ss3"@[0] != "Osc"@[0]);
            assert("Ss3"@[0] != "Dcs"@[0]);
            assert("Ss3"@[0] != "Apc"@[0]);
            assert("Ss3"@.len() != "Pm"@.len());
            assert("Ss3"@[1] != "Sos"@[1]);
            assert("Ss3"@[2] != "Ss2"@[2]);
            assert("Ss3"@.len() != "Fe"@.len());
            assert("Ss3"@.len() != "Unknown"@.len());
        },
        SeqKind::Fe => {
            assert("Fe"@.len() != "CsiSgr"@.len());
            assert("Fe"@.len() != "CsiCursor"@.len());
            assert("Fe"@.len() != "CsiErase"@.len());
            assert("Fe"@.len() != "CsiScroll"@.len());
            assert("Fe"@.len() != "CsiMode"@.len());
            assert("Fe"@.len() != "CsiDeviceStatus"@.len());
            assert("Fe"@.len() != "CsiWindow"@.len());
            assert("Fe"@.len() != "CsiQuery"@.len());
            assert("Fe"@.len() != "CsiOther"@.len());
            assert("Fe"@.len() != "Osc"@.len());
            assert("Fe"@.len() != "Dcs"@.len());
            assert("Fe"@.len() != "Apc"@.len());
            assert("Fe"@[0] != "Pm"@[0]);
            assert("Fe"@.len() != "Sos"@.len());
            assert("Fe"@.len() != "Ss2"@.len());
            assert("Fe"@.len() != "Ss3"@.len());
            assert("Fe"@.len() != "Unknown"@.len());
        },
        SeqKind::Unknown => {
            assert("Unknown"@.len() != "CsiSgr"@.len());
            assert("Unknown"@.len() != "CsiCursor"@.len());
            assert("Unknown"@.len() != "CsiErase"@.len());
            assert("Unknown"@.len() != "CsiScroll"@.len());
            assert("Unknown"@[0] != "CsiMode"@[0]);
            assert("Unknown"@.len() != "CsiDeviceStatus"@.len());
            assert("Unknown"@.len() != "CsiWindow"@.len());
            assert("Unknown"@.len() != "CsiQuery"@.len());
            assert("Unknown"@.len() != "CsiOther"@.len());
            assert("Unknown"@.len() != "Osc"@.len());
            assert("Unknown"@.len() != "Dcs"@.len());
            assert("Unknown"@.len() != "Apc"@.len());
            assert("Unknown"@.len() != "Pm"@.len());
            assert("Unknown"@.len() != "Sos"@.len());
            assert("Unknown"@.len() != "Ss2"@.len());
            assert("Unknown"@.len() != "Ss3"@.len());
            assert("Unknown"@.len() != "Fe"@.len());
        },
    }
}

/// Pattern fields used to match a [`SeqDetail`] against a threat entry.
#[derive(Clone, Debug)]
pub struct ThreatMatch {
    /// Kind name: "Dcs", "Osc", "CsiQuery", etc.
    pub kind: String,
    /// OSC number to match (e.g. 50 for font query).
    pub osc_number: Option<u16>,
    /// First CSI parameter to match (e.g. 21 for title report).
    pub first_param: Option<u16>,
    /// Whether the DCS sequence is a DECRQSS query.
    pub dcs_is_query: Option<bool>,
}

/// A single threat pattern with metadata.
#[derive(Clone, Debug)]
pub struct ThreatEntry {
    /// Unique threat type name (e.g. "dcs_decrqss", "osc_50").
    pub threat_type: String,
    /// Pattern to match against classified sequences.
    pub match_pattern: ThreatMatch,
    /// CVE identifier, if known.
    pub cve: Option<String>,
    /// Human-readable description.
    pub description: String,
    /// Reference URI (NVD, advisory, etc.).
    pub reference: Option<String>,
}

/// Whether a pattern matches a finished sequence: the kind must be the one
/// the pattern names, and each given field must be equal.
pub open spec fn pattern_matches(m: ThreatMatch, d: SeqDetail) -> bool {
    &&& spec_parse_kind(m.kind@) == Some(d.kind)
    &&& (m.osc_number matches Some(o) ==> d.osc_number == o)
    &&& (m.first_param matches Some(fp) ==> d.first_param == fp)
    &&& (m.dcs_is_query matches Some(q) ==> d.dcs_is_query == q)
}

/// The view of an optional string.
pub open spec fn opt_str(o: Option<String>) -> Option<Seq<char>> {
    match o {
        Some(s) => Some(s@),
        None => None,
    }
}

/// Whether `m` matches `detail`, given the kind its name resolves to.
fn pattern_matches_resolved(m: &ThreatMatch, resolved: Option<SeqKind>, detail: &SeqDetail) -> (r: bool)
    requires
        resolved == spec_parse_kind(m.kind@),
    ensures
        r == pattern_matches(*m, *detail),
{
    // Kind must match: use the resolved kind, not the string.
    let kind_matches = match resolved {
        Some(k) => detail.kind == k,
        None => {
            proof {
                law_kind_name_roundtrip(detail.kind);
            }
            str_eq(seq_kind_name(detail.kind), m.kind.as_str())
        },
    };
    if !kind_matches {
        return false;
    }
    if let Some(osc) = m.osc_number {
        if detail.osc_number != osc {
            return false;
        }
    }
    if let Some(fp) = m.first_param {
        if detail.first_param != fp {
            return false;
        }
    }
    if let Some(dq) = m.dcs_is_query {
        if detail.dcs_is_query != dq {
            return false;
        }
    }
    true
}

/// Index of the first entry whose pattern matches, if any.
pub open spec fn first_match(entries: Seq<ThreatEntry>, d: SeqDetail) -> Option<int> {
    if exists|i: int| 0 <= i < entries.len() && pattern_matches(entries[i].match_pattern, d) {
        Some(
            choose|i: int|
                0 <= i < entries.len() && pattern_matches(entries[i].match_pattern, d) && forall|
                    j: int,
                |
                    0 <= j < i ==> !pattern_matches(entries[j].match_pattern, d),
        )
    } else {
        None
    }
}

/// The first match is the entry that matches with no matching entry
/// before it, and there is none exactly when no entry matches.
pub proof fn law_first_match_is_first(entries: Seq<ThreatEntry>, d: SeqDetail, i: int)
    ensures
        (0 <= i < entries.len() && pattern_matches(entries[i].match_pattern, d) && forall|j: int|
            0 <= j < i ==> !pattern_matches((#[trigger] entries[j]).match_pattern, d)) <==> first_match(
            entries,
            d,
        ) == Some(i),
        first_match(entries, d) is None <==> forall|j: int|
            0 <= j < entries.len() ==> !pattern_matches((#[trigger] entries[j]).match_pattern, d),
{
    if exists|k: int| 0 <= k < entries.len() && pattern_matches(entries[k].match_pattern, d) {
        lemma_first_match_exists(entries, d);
        let k = first_match(entries, d).unwrap();
        if 0 <= i < entries.len() && pattern_matches(entries[i].match_pattern, d) && forall|j: int|
            0 <= j < i ==> !pattern_matches((#[trigger] entries[j]).match_pattern, d) {
            if k < i {
                assert(!pattern_matches(entries[k].match_pattern, d));
            }
            if i < k {
                assert(pattern_matches(entries[i].match_pattern, d));
            }
        }
    }
}

/// Some entry matches exactly when a first one does.
proof fn lemma_first_match_exists(entries: Seq<ThreatEntry>, d: SeqDetail)
    requires
        exists|k: int| 0 <= k < entries.len() && pattern_matches(entries[k].match_pattern, d),
    ensures
        first_match(entries, d) is Some,
        ({
            let k = first_match(entries, d).unwrap();
            &&& 0 <= k < entries.len()
            &&& pattern_matches(entries[k].match_pattern, d)
            &&& forall|j: int| 0 <= j < k ==> !pattern_matches((#[trigger] entries[j]).match_pattern, d)
        }),
{
    let w = choose|k: int| 0 <= k < entries.len() && pattern_matches(entries[k].match_pattern, d);
    lemma_least_match(entries, d, w);
}

/// Below any matching index lies a least one.
proof fn lemma_least_match(entries: Seq<ThreatEntry>, d: SeqDetail, w: int)
    requires
        0 <= w < entries.len(),
        pattern_matches(entries[w].match_pattern, d),
    ensures
        exists|i: int|
            0 <= i < entries.len() && pattern_matches(entries[i].match_pattern, d) && forall|j: int|
                0 <= j < i ==> !pattern_matches((#[trigger] entries[j]).match_pattern, d),
    decreases w,
{
    if exists|j: int| 0 <= j < w && pattern_matches(entries[j].match_pattern, d) {
        let j = choose|j: int| 0 <= j < w && pattern_matches(entries[j].match_pattern, d);
        lemma_least_match(entries, d, j);
    } else {
        assert(forall|j: int| 0 <= j < w ==> !pattern_matches((#[trigger] entries[j]).match_pattern, d));
    }
}

/// Whether `e` holds exactly the given fields (strings by their views).
pub open spec fn entry_is(
    e: ThreatEntry,
    threat_type: Seq<char>,
    kind: Seq<char>,
    osc_number: Option<u16>,
    first_param: Option<u16>,
    dcs_is_query: Option<bool>,
    cve: Option<Seq<char>>,
    description: Seq<char>,
    reference: Option<Seq<char>>,
) -> bool {
    &&& e.threat_type@ == threat_type
    &&& e.match_pattern.kind@ == kind
    &&& e.match_pattern.osc_number == osc_number
    &&& e.match_pattern.first_param == first_param
    &&& e.match_pattern.dcs_is_query == dcs_is_query
    &&& opt_str(e.cve) == cve
    &&& e.description@ == description
    &&& opt_str(e.reference) == reference
}

/// The six compiled-in entries, in order.
pub open spec fn builtin_spec(entries: Seq<ThreatEntry>) -> bool {
    &&& entries.len() == 6
    &&& entry_is(
        entries[0],
        "dcs_decrqss"@,
        "Dcs"@,
        None,
        None,
        Some(true),
        Some("CVE-2008-2383"@),
        "DECRQSS echoback"@,
        Some("https://nvd.nist.gov/vuln/detail/CVE-2008-2383"@),
    )
    &&& entry_is(
        entries[1],
        "dcs_other"@,
        "Dcs"@,
        None,
        None,
        Some(false),
        None,
        "Other DCS sequence"@,
        None,
    )
    &&& entry_is(
        entries[2],
        "osc_50"@,
        "Osc"@,
        Some(50),
        None,
        None,
        Some("CVE-2022-45063"@),
        "Font query echoback"@,
        Some("https://nvd.nist.gov/vuln/detail/CVE-2022-45063"@),
    )
    &&& entry_is(
        entries[3],
        "osc_clipboard"@,
        "Osc"@,
        Some(52),
        None,
        None,
        None,
        "Clipboard access"@,
        None,
    )
    &&& entry_is(
        entries[4],
        "csi_21t"@,
        "CsiQuery"@,
        None,
        Some(21),
        None,
        Some("CVE-2003-0063"@),
        "Title report echoback"@,
        Some("https://nvd.nist.gov/vuln/detail/CVE-2003-0063"@),
    )
    &&& entry_is(
        entries[5],
        "csi_6n"@,
        "CsiQuery"@,
        None,
        Some(6),
        None,
        None,
        "Cursor position report"@,
        None,
    )
}

/// Build one entry from its fields.
fn make_entry(
    threat_type: &str,
    kind: &str,
    osc_number: Option<u16>,
    first_param: Option<u16>,
    dcs_is_query: Option<bool>,
    cve: Option<&str>,
    description: &str,
    reference: Option<&str>,
) -> (e: ThreatEntry)
    ensures
        entry_is(
            e,
            threat_type@,
            kind@,
            osc_number,
            first_param,
            dcs_is_query,
            match cve {
                Some(c) => Some(c@),
                None => None,
            },
            description@,
            match reference {
                Some(r) => Some(r@),
                None => None,
            },
        ),
{
    let cve = match cve {
        Some(c) => Some(c.to_owned()),
        None => None,
    };
    let reference = match reference {
        Some(r) => Some(r.to_owned()),
        None => None,
    };
    ThreatEntry {
        threat_type: threat_type.to_owned(),
        match_pattern: ThreatMatch {
            kind: kind.to_owned(),
            osc_number,
            first_param,
            dcs_is_query,
        },
        cve,
        description: description.to_owned(),
        reference,
    }
}

/// The six built-in entries: the echoback patterns with their CVEs.
fn builtin_entries() -> (v: Vec<ThreatEntry>)
    ensures
        builtin_spec(v@),
{
    let mut v: Vec<ThreatEntry> = Vec::new();
    v.push(
        make_entry(
            "dcs_decrqss",
            "Dcs",
            None,
            None,
            Some(true),
            Some("CVE-2008-2383"),
            "DECRQSS echoback",
            Some("https://nvd.nist.gov/vuln/detail/CVE-2008-2383"),
        ),
    );
    v.push(make_entry("dcs_other", "Dcs", None, None, Some(false), None, "Other DCS sequence", None));
    v.push(
        make_entry(
            "osc_50",
            "Osc",
            Some(50),
            None,
            None,
            Some("CVE-2022-45063"),
            "Font query echoback",
            Some("https://nvd.nist.gov/vuln/detail/CVE-2022-45063"),
        ),
    );
    v.push(make_entry("osc_clipboard", "Osc", Some(52), None, None, None, "Clipboard access", None));
    v.push(
        make_entry(
            "csi_21t",
            "CsiQuery",
            None,
            Some(21),
            None,
            Some("CVE-2003-0063"),
            "Title report echoback",
            Some("https://nvd.nist.gov/vuln/detail/CVE-2003-0063"),
        ),
    );
    v.push(make_entry("csi_6n", "CsiQuery", None, Some(6), None, None, "Cursor position report", None));
    v
}

/// Whether some entry of `entries` has threat type `t`.
pub open spec fn has_type(entries: Seq<ThreatEntry>, t: Seq<char>) -> bool {
    exists|i: int| 0 <= i < entries.len() && (#[trigger] entries[i]).threat_type@ == t
}

/// The entries after adding `ext` in order, each one rejected when its
/// threat type is already present (built-in or added before it).
pub open spec fn merged(entries: Seq<ThreatEntry>, ext: Seq<ThreatEntry>) -> Seq<ThreatEntry>
    decreases ext.len(),
{
    if ext.len() == 0 {
        entries
    } else {
        let prev = merged(entries, ext.drop_last());
        if has_type(prev, ext.last().threat_type@) {
            prev
        } else {
            prev.push(ext.last())
        }
    }
}

/// The threat types of the entries of `ext` that the merge rejects, in order.
pub open spec fn rejected(entries: Seq<ThreatEntry>, ext: Seq<ThreatEntry>) -> Seq<Seq<char>>
    decreases ext.len(),
{
    if ext.len() == 0 {
        Seq::empty()
    } else {
        let prev = rejected(entries, ext.drop_last());
        if has_type(merged(entries, ext.drop_last()), ext.last().threat_type@) {
            prev.push(ext.last().threat_type@)
        } else {
            prev
        }
    }
}

/// Merged threat database: built-in defaults plus external entries.
///
/// Built-in entries are immutable; external entries are additive only, and
/// an entry whose `threat_type` is already present is rejected.
#[derive(Debug)]
pub struct ThreatDb {
    entries: Vec<ThreatEntry>,
    /// `kinds[i]` is the kind that `entries[i].match_pattern.kind` names.
    kinds: Vec<Option<SeqKind>>,
}

impl ThreatDb {
    #[verifier::type_invariant]
    spec fn kinds_resolved(&self) -> bool {
        &&& self.kinds@.len() == self.entries@.len()
        &&& forall|i: int|
            0 <= i < self.entries@.len() ==> #[trigger] self.kinds@[i] == spec_parse_kind(
                self.entries@[i].match_pattern.kind@,
            )
    }

    /// The entries, in order.
    pub closed spec fn spec_entries(&self) -> Seq<ThreatEntry> {
        self.entries@
    }

    /// A database over `entries`, each pattern's kind name resolved once.
    fn from_entries(entries: Vec<ThreatEntry>) -> (db: Self)
        ensures
            db.spec_entries() == entries@,
    {
        let mut kinds: Vec<Option<SeqKind>> = Vec::new();
        let n = entries.len();
        let mut i: usize = 0;
        while i < n
            invariant
                n == entries@.len(),
                i <= n,
                kinds@.len() == i,
                forall|j: int|
                    0 <= j < i ==> #[trigger] kinds@[j] == spec_parse_kind(
                        entries@[j].match_pattern.kind@,
                    ),
            decreases n - i,
        {
            kinds.push(parse_seq_kind(entries[i].match_pattern.kind.as_str()));
            i += 1;
        }
        ThreatDb { entries, kinds }
    }

    /// A threat database with only the compiled-in default entries.
    pub fn builtin() -> (db: Self)
        ensures
            builtin_spec(db.spec_entries()),
    {
        Self::from_entries(builtin_entries())
    }

    /// Add external entries, in order. An entry whose threat type is
    /// already present (built-in, or added earlier) is rejected: the
    /// built-in entries are immutable. Returns the rejected threat types.
    pub fn merge_external(&mut self, external: Vec<ThreatEntry>) -> (rej: Vec<String>)
        ensures
            final(self).spec_entries() == merged(old(self).spec_entries(), external@),
            rej@.map_values(|s: String| s@) == rejected(old(self).spec_entries(), external@),
    {
        proof {
            use_type_invariant(&*self);
        }
        let ghost base = self.entries@;
        let mut db = ThreatDb { entries: Vec::new(), kinds: Vec::new() };
        std::mem::swap(&mut db, self);
        proof {
            use_type_invariant(&db);
        }
        let ThreatDb { mut entries, mut kinds } = db;
        let mut rej: Vec<String> = Vec::new();
        for entry in it: external.into_iter()
            invariant
                it.seq() == external@,
                entries@ == merged(base, external@.take(it.index() as int)),
                rej@.map_values(|s: String| s@) == rejected(base, external@.take(it.index() as int)),
                kinds@.len() == entries@.len(),
                forall|j: int|
                    0 <= j < entries@.len() ==> #[trigger] kinds@[j] == spec_parse_kind(
                        entries@[j].match_pattern.kind@,
                    ),
        {
            let ghost k = it.index() as int;
            proof {
                assert(external@.take(k + 1).drop_last() == external@.take(k));
            }
            let mut dup = false;
            let n = entries.len();
            let mut j: usize = 0;
            while j < n
                invariant
                    n == entries@.len(),
                    j <= n,
                    dup == exists|q: int| 0 <= q < j && (#[trigger] entries@[q]).threat_type@ == entry.threat_type@,
                decreases n - j,
            {
                if entries[j].threat_type == entry.threat_type {
                    dup = true;
                }
                j += 1;
            }
            if dup {
                rej.push(entry.threat_type);
                proof {
                    assert(rej@.map_values(|s: String| s@) =~= rejected(base, external@.take(k + 1)));
                }
            } else {
                kinds.push(parse_seq_kind(entry.match_pattern.kind.as_str()));
                entries.push(entry);
                proof {
                    assert(rej@.map_values(|s: String| s@) =~= rejected(base, external@.take(k + 1)));
                }
            }
        }
        proof {
            assert(external@.take(external@.len() as int) == external@);
        }
        *self = ThreatDb { entries, kinds };
        rej
    }

    /// Classify a sequence detail against the database: the first entry
    /// whose pattern matches, or `None`.
    pub fn classify(&self, detail: &SeqDetail) -> (r: Option<&ThreatEntry>)
        ensures
            match first_match(self.spec_entries(), *detail) {
                Some(i) => r == Some(&self.spec_entries()[i]),
                None => r is None,
            },
    {
        proof {
            use_type_invariant(self);
        }
        let n = self.entries.len();
        let mut i: usize = 0;
        while i < n
            invariant
                n == self.entries@.len(),
                n == self.kinds@.len(),
                i <= n,
                forall|j: int| 0 <= j < i ==> !pattern_matches(self.entries@[j].match_pattern, *detail),
                forall|j: int|
                    0 <= j < self.entries@.len() ==> #[trigger] self.kinds@[j] == spec_parse_kind(
                        self.entries@[j].match_pattern.kind@,
                    ),
            decreases n - i,
        {
            let entry = &self.entries[i];
            if pattern_matches_resolved(&entry.match_pattern, self.kinds[i], detail) {
                proof {
                    let w = i as int;
                    assert(0 <= w < self.entries@.len() && pattern_matches(self.entries@[w].match_pattern, *detail));
                    let k = first_match(self.entries@, *detail).unwrap();
                    if k < w {
                        assert(!pattern_matches(self.entries@[k].match_pattern, *detail));
                    }
                    if w < k {
                        assert(!pattern_matches(self.entries@[w].match_pattern, *detail));
                    }
                }
                return Some(entry);
            }
            i += 1;
        }
        None
    }

    /// Returns the number of entries in the database.
    pub fn len(&self) -> (n: usize)
        ensures
            n == self.spec_entries().len(),
    {
        self.entries.len()
    }

    /// Returns `true` if the database has no entries.
    pub fn is_empty(&self) -> (b: bool)
        ensures
            b == (self.spec_entries().len() == 0),
    {
        self.entries.len() == 0
    }

    /// Returns a slice of all entries.
    pub fn entries(&self) -> (s: &[ThreatEntry])
        ensures
            s@ == self.spec_entries(),
    {
        self.entries.as_slice()
    }
}

impl Clone for ThreatDb {
    fn clone(&self) -> (db: Self) {
        ThreatDb::from_entries(self.entries.clone())
    }
}

} // verus!
