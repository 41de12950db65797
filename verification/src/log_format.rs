//! The lines of the log on a terminal: green, with a glyph for each level so
//! that a warning stands out of the wall.
use vstd::prelude::*;
use vstd::string::StringExecFns;

use crate::banner::{BRIGHT_GREEN, DIM_GREEN, GREEN, RESET};

verus! {

pub const YELLOW: &'static str = "\x1b[33m";

pub const RED: &'static str = "\x1b[31m";

/// How important a line is.
#[derive(Debug, Clone, Copy, PartialEq, Eq, Structural)]
pub enum LogLevel {
    Error,
    Warn,
    Info,
    Debug,
    Trace,
}

impl LogLevel {
    /// The colour of the level.
    pub open spec fn spec_colour(&self) -> Seq<char> {
        match self {
            LogLevel::Error => RED@,
            LogLevel::Warn => YELLOW@,
            LogLevel::Info => BRIGHT_GREEN@,
            LogLevel::Debug => GREEN@,
            LogLevel::Trace => DIM_GREEN@,
        }
    }

    /// The glyph of the level.
    pub open spec fn spec_glyph(&self) -> Seq<char> {
        match self {
            LogLevel::Error => "✗"@,
            LogLevel::Warn => "!"@,
            LogLevel::Info => "›"@,
            LogLevel::Debug => "·"@,
            LogLevel::Trace => "."@,
        }
    }

    /// The name of the level, filled up to five columns.
    pub open spec fn spec_name(&self) -> Seq<char> {
        match self {
            LogLevel::Error => "ERROR"@,
            LogLevel::Warn => "WARN "@,
            LogLevel::Info => "INFO "@,
            LogLevel::Debug => "DEBUG"@,
            LogLevel::Trace => "TRACE"@,
        }
    }

    pub fn colour(&self) -> (r: &'static str)
        ensures
            r@ == self.spec_colour(),
    {
        match self {
            LogLevel::Error => RED,
            LogLevel::Warn => YELLOW,
            LogLevel::Info => BRIGHT_GREEN,
            LogLevel::Debug => GREEN,
            LogLevel::Trace => DIM_GREEN,
        }
    }

    pub fn glyph(&self) -> (r: &'static str)
        ensures
            r@ == self.spec_glyph(),
    {
        match self {
            LogLevel::Error => "✗",
            LogLevel::Warn => "!",
            LogLevel::Info => "›",
            LogLevel::Debug => "·",
            LogLevel::Trace => ".",
        }
    }

    pub fn name(&self) -> (r: &'static str)
        ensures
            r@ == self.spec_name(),
    {
        match self {
            LogLevel::Error => "ERROR",
            LogLevel::Warn => "WARN ",
            LogLevel::Info => "INFO ",
            LogLevel::Debug => "DEBUG",
            LogLevel::Trace => "TRACE",
        }
    }
}

/// Every level has a glyph of its own.
pub proof fn law_each_level_has_its_own_glyph(a: LogLevel, b: LogLevel)
    ensures
        a.spec_glyph() == b.spec_glyph() <==> a == b,
{
    reveal_strlit("✗");
    reveal_strlit("!");
    reveal_strlit("›");
    reveal_strlit("·");
    reveal_strlit(".");
    assert(a.spec_glyph().len() == 1 && b.spec_glyph().len() == 1);
    assert(a != b ==> a.spec_glyph()[0] != b.spec_glyph()[0]);
}

/// `text` with spaces in front, filled up to `width` columns.
pub open spec fn padded_left(text: Seq<char>, width: nat) -> Seq<char> {
    Seq::new(
        if text.len() < width {
            (width - text.len()) as nat
        } else {
            0
        },
        |i: int| ' ',
    ) + text
}

/// The start of a line: the time since the program started, in seconds, and
/// the level.
pub open spec fn line_start_of(seconds: Seq<char>, level: LogLevel) -> Seq<char> {
    DIM_GREEN@ + "["@ + padded_left(seconds, 7) + "s]"@ + RESET@ + " "@ + level.spec_colour()
        + level.spec_glyph() + " "@ + level.spec_name() + RESET@ + " "@ + GREEN@
}

/// What ends a line: the colour is closed off, or it would bleed into whatever
/// the terminal prints next.
pub open spec fn line_end_of() -> Seq<char> {
    RESET@ + "\n"@
}

/// `moment` is what a reading of the machine's clock gave.
pub closed spec fn is_clock_reading(moment: std::time::Instant) -> bool {
    call_ensures(crate::denoiser::now, (), moment)
}

/// The green format of the terminal's log, which counts time from when it was
/// made.
#[derive(Debug)]
pub struct GreenFormat {
    start: std::time::Instant,
}

impl GreenFormat {
    /// When the count started.
    pub closed spec fn spec_start(&self) -> std::time::Instant {
        self.start
    }

    /// A format that counts time from now on: from the moment that the clock
    /// gives. Which moment that is depends on when it is asked.
    pub fn new() -> (r: Self)
        ensures
            is_clock_reading(r.spec_start()),
    {
        GreenFormat::starting_at(crate::denoiser::now())
    }

    /// A format that counts time from the given moment on.
    pub fn starting_at(start: std::time::Instant) -> (r: Self)
        ensures
            r.spec_start() == start,
    {
        GreenFormat { start }
    }

    /// The moment that time is counted from.
    pub fn start(&self) -> (r: std::time::Instant)
        ensures
            r == self.spec_start(),
    {
        self.start
    }

    /// The start of a line. `seconds` is the time since the start, with three
    /// decimals.
    pub fn line_start(&self, seconds: &str, level: LogLevel) -> (r: String)
        ensures
            r@ == line_start_of(seconds@, level),
    {
        let mut out = DIM_GREEN.to_owned();
        out.append("[");
        let n: usize = crate::text::chars_of(seconds).len();
        let ghost head = out@;
        let fill: usize = if n < 7 {
            7 - n
        } else {
            0
        };
        for i in 0..fill
            invariant
                out@ == head + Seq::new(i as nat, |j: int| ' '),
        {
            out.push(' ');
            assert(Seq::new((i + 1) as nat, |j: int| ' ') =~= Seq::new(i as nat, |j: int| ' ').push(
                ' ',
            ));
            assert(out@ =~= head + Seq::new((i + 1) as nat, |j: int| ' '));
        }
        out.append(seconds);
        assert(out@ =~= head + padded_left(seconds@, 7));
        out.append("s]");
        out.append(RESET);
        out.append(" ");
        out.append(level.colour());
        out.append(level.glyph());
        out.append(" ");
        out.append(level.name());
        out.append(RESET);
        out.append(" ");
        out.append(GREEN);
        out
    }

    /// The end of a line.
    pub fn line_end(&self) -> (r: String)
        ensures
            r@ == line_end_of(),
    {
        RESET.to_owned().concat("\n")
    }
}

} // verus!
