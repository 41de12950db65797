//! The banner that a terminal is greeted with.
use vstd::prelude::*;
use vstd::string::StringExecFns;

verus! {

pub const GREEN: &'static str = "\x1b[32m";

pub const BRIGHT_GREEN: &'static str = "\x1b[1;92m";

pub const DIM_GREEN: &'static str = "\x1b[2;32m";

pub const RESET: &'static str = "\x1b[0m";

/// The name in large letters, drawn to fit 80 columns.
pub const ASCII_ART: &'static str = "\n███╗   ██╗ ██████╗ ██╗███████╗███████╗ ██████╗  █████╗ ████████╗███████╗\n████╗  ██║██╔═══██╗██║██╔════╝██╔════╝██╔════╝ ██╔══██╗╚══██╔══╝██╔════╝\n██╔██╗ ██║██║   ██║██║███████╗█████╗  ██║  ███╗███████║   ██║   █████╗\n██║╚██╗██║██║   ██║██║╚════██║██╔══╝  ██║   ██║██╔══██║   ██║   ██╔══╝\n██║ ╚████║╚██████╔╝██║███████║███████╗╚██████╔╝██║  ██║   ██║   ███████╗\n╚═╝  ╚═══╝ ╚═════╝ ╚═╝╚══════╝╚══════╝ ╚═════╝ ╚═╝  ╚═╝   ╚═╝   ╚══════╝\n";

/// The banner: the name in bright green, a line on what it is, and a dim line
/// with the version and where it comes from.
pub open spec fn banner_of(version: Seq<char>, repository: Seq<char>) -> Seq<char> {
    BRIGHT_GREEN@ + ASCII_ART@ + RESET@ + GREEN@
        + "    real-time mic noise cancellation  •  windows  •  rust"@ + RESET@ + "\n"@ + DIM_GREEN@
        + "    v"@ + version + "  •  "@ + repository + RESET@ + "\n"@ + DIM_GREEN@
        + "    ────────────────────────────────────────────────────────────────────────"@ + RESET@
        + "\n"@
}

/// The banner's text.
pub fn banner(version: &str, repository: &str) -> (r: String)
    ensures
        r@ == banner_of(version@, repository@),
{
    let mut out = BRIGHT_GREEN.to_owned();
    out.append(ASCII_ART);
    out.append(RESET);
    out.append(GREEN);
    out.append("    real-time mic noise cancellation  •  windows  •  rust");
    out.append(RESET);
    out.append("\n");
    out.append(DIM_GREEN);
    out.append("    v");
    out.append(version);
    out.append("  •  ");
    out.append(repository);
    out.append(RESET);
    out.append("\n");
    out.append(DIM_GREEN);
    out.append("    ────────────────────────────────────────────────────────────────────────");
    out.append(RESET);
    out.append("\n");
    out
}

/// The console mode with escape sequences switched on; everything else as it
/// was.
pub fn enable_vt_processing(mode: u32) -> (r: u32)
    ensures
        r & 4 == 4,
        r & !4u32 == mode & !4u32,
{
    assert((mode | 4) & 4 == 4) by (bit_vector);
    assert((mode | 4) & !4u32 == mode & !4u32) by (bit_vector);
    mode | 4
}

} // verus!
