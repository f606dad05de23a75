//! What is logged, and how a line looks.

use vstd::prelude::*;
use vstd::string::*;

verus! {

/// The severity of a message.
#[derive(Debug, Clone, Copy, PartialEq, Eq, Structural)]
pub enum Level {
    Error,
    Warn,
    Info,
    Debug,
    Trace,
}

/// The least severe messages that are still shown.
#[derive(Debug, Clone, Copy, PartialEq, Eq, Structural)]
pub enum LevelFilter {
    Off,
    Error,
    Warn,
    Info,
    Debug,
    Trace,
}

impl Level {
    /// How far down the scale a message stands.
    pub open spec fn rank(self) -> nat {
        match self {
            Level::Error => 1,
            Level::Warn => 2,
            Level::Info => 3,
            Level::Debug => 4,
            Level::Trace => 5,
        }
    }

    fn depth(self) -> (r: u8)
        ensures
            r == self.rank(),
    {
        match self {
            Level::Error => 1,
            Level::Warn => 2,
            Level::Info => 3,
            Level::Debug => 4,
            Level::Trace => 5,
        }
    }

    /// The name that a line shows.
    pub open spec fn label(self) -> Seq<char> {
        match self {
            Level::Error => "ERROR"@,
            Level::Warn => "WARN"@,
            Level::Info => "INFO"@,
            Level::Debug => "DEBUG"@,
            Level::Trace => "TRACE"@,
        }
    }

    pub fn as_str(self) -> (r: &'static str)
        ensures
            r@ == self.label(),
    {
        match self {
            Level::Error => "ERROR",
            Level::Warn => "WARN",
            Level::Info => "INFO",
            Level::Debug => "DEBUG",
            Level::Trace => "TRACE",
        }
    }

    /// The terminal code of the colour that a line shows.
    pub open spec fn color(self) -> Seq<char> {
        match self {
            Level::Error => "\x1b[31m"@,
            Level::Warn => "\x1b[33m"@,
            Level::Info => "\x1b[32m"@,
            Level::Debug => "\x1b[36m"@,
            Level::Trace => "\x1b[35m"@,
        }
    }
}

impl LevelFilter {
    /// How far down the scale messages are shown.
    pub open spec fn rank(self) -> nat {
        match self {
            LevelFilter::Off => 0,
            LevelFilter::Error => 1,
            LevelFilter::Warn => 2,
            LevelFilter::Info => 3,
            LevelFilter::Debug => 4,
            LevelFilter::Trace => 5,
        }
    }

    fn depth(self) -> (r: u8)
        ensures
            r == self.rank(),
    {
        match self {
            LevelFilter::Off => 0,
            LevelFilter::Error => 1,
            LevelFilter::Warn => 2,
            LevelFilter::Info => 3,
            LevelFilter::Debug => 4,
            LevelFilter::Trace => 5,
        }
    }
}

/// The terminal code of the colour of a level.
pub fn color_code(level: Level) -> (r: &'static str)
    ensures
        r@ == level.color(),
{
    match level {
        Level::Error => "\x1b[31m",
        Level::Warn => "\x1b[33m",
        Level::Info => "\x1b[32m",
        Level::Debug => "\x1b[36m",
        Level::Trace => "\x1b[35m",
    }
}

/// How lines are written.
#[derive(Debug, Clone, Copy, PartialEq, Eq, Structural)]
pub struct Logger {
    pub colored: bool,
}

/// The line of a message: time and level, the level in colour if asked for,
/// then the message.
pub open spec fn line_text(
    colored: bool,
    ts: Seq<char>,
    level: Level,
    message: Seq<char>,
) -> Seq<char> {
    if colored {
        "["@ + ts + "] "@ + level.color() + level.label() + "\x1b[0m "@ + message
    } else {
        "["@ + ts + "] "@ + level.label() + " "@ + message
    }
}

impl Logger {
    /// Whether a message of this level is shown.
    pub fn enabled(&self, level: Level, max: LevelFilter) -> (r: bool)
        ensures
            r == (level.rank() <= max.rank()),
    {
        level.depth() <= max.depth()
    }

    /// The line of a message, if it is shown.
    pub fn log(&self, max: LevelFilter, ts: &str, level: Level, message: &str) -> (r: Option<
        String,
    >)
        ensures
            if level.rank() <= max.rank() {
                r matches Some(line) && line@ == line_text(self.colored, ts@, level, message@)
            } else {
                r is None
            },
    {
        if !self.enabled(level, max) {
            return None;
        }
        let mut line: String = String::new();
        line.append("[");
        line.append(ts);
        line.append("] ");
        if self.colored {
            line.append(color_code(level));
            line.append(level.as_str());
            line.append("\x1b[0m ");
        } else {
            line.append(level.as_str());
            line.append(" ");
        }
        line.append(message);
        assert(line@ =~= line_text(self.colored, ts@, level, message@));
        Some(line)
    }
}

/// Colour is used on a terminal, unless `NO_COLOR` is set to something.
/// `no_color_len` is the length of its value, if it is set.
pub fn detect_color(no_color_len: Option<usize>, stderr_is_terminal: bool) -> (r: bool)
    ensures
        r == (stderr_is_terminal && (no_color_len is Some ==> no_color_len->0 == 0)),
        r == colour_used(no_color_len, stderr_is_terminal),
{
    match no_color_len {
        Some(n) => n == 0 && stderr_is_terminal,
        None => stderr_is_terminal,
    }
}

/// The logger, and the messages it shows: those of debugging only if asked for.
pub fn init_logger(
    verbose: bool,
    no_color_len: Option<usize>,
    stderr_is_terminal: bool,
) -> (r: (Logger, LevelFilter))
    ensures
        r.0.colored == (stderr_is_terminal && (no_color_len is Some ==> no_color_len->0 == 0)),
        r.0.colored == colour_used(no_color_len, stderr_is_terminal),
        r.1 == shown_level(verbose),
        r.1 == (if verbose {
            LevelFilter::Debug
        } else {
            LevelFilter::Info
        }),
{
    let level: LevelFilter = if verbose {
        LevelFilter::Debug
    } else {
        LevelFilter::Info
    };
    (Logger { colored: detect_color(no_color_len, stderr_is_terminal) }, level)
}

/// A message is shown exactly when its level is at or above the setting, in the
/// order error, warning, information, debugging, trace; nothing is shown when
/// logging is off.
pub proof fn law_levels(level: Level)
    ensures
        level.rank() > LevelFilter::Off.rank(),
        level.rank() <= LevelFilter::Error.rank() <==> level is Error,
        level.rank() <= LevelFilter::Warn.rank() <==> level is Error || level is Warn,
        level.rank() <= LevelFilter::Info.rank() <==> level is Error || level is Warn
            || level is Info,
        level.rank() <= LevelFilter::Debug.rank() <==> level !is Trace,
        level.rank() <= LevelFilter::Trace.rank(),
{
}

/// The name and the colour of each level.
pub proof fn law_level_names(level: Level)
    ensures
        level is Error ==> level.label() == "ERROR"@ && level.color() == "\x1b[31m"@,
        level is Warn ==> level.label() == "WARN"@ && level.color() == "\x1b[33m"@,
        level is Info ==> level.label() == "INFO"@ && level.color() == "\x1b[32m"@,
        level is Debug ==> level.label() == "DEBUG"@ && level.color() == "\x1b[36m"@,
        level is Trace ==> level.label() == "TRACE"@ && level.color() == "\x1b[35m"@,
{
}

/// A line is the time in brackets, the level and the message; colour adds a
/// code before the level and one after it, and changes nothing else.
pub proof fn law_line(ts: Seq<char>, level: Level, message: Seq<char>)
    ensures
        line_text(false, ts, level, message) == "["@ + ts + "] "@ + level.label() + " "@ + message,
        line_text(true, ts, level, message) == "["@ + ts + "] "@ + level.color() + level.label()
            + "\x1b[0m "@ + message,
{
}

/// Whether lines are coloured.
pub open spec fn colour_used(no_color_len: Option<usize>, stderr_is_terminal: bool) -> bool {
    match no_color_len {
        Some(n) => n == 0 && stderr_is_terminal,
        None => stderr_is_terminal,
    }
}

/// The messages that are shown.
pub open spec fn shown_level(verbose: bool) -> LevelFilter {
    if verbose {
        LevelFilter::Debug
    } else {
        LevelFilter::Info
    }
}

/// There is never colour off a terminal; on one there is, unless `NO_COLOR` has
/// a value that is not empty.
pub proof fn law_colour(n: usize)
    ensures
        !colour_used(None, false) && !colour_used(Some(n), false),
        colour_used(None, true),
        colour_used(Some(n), true) <==> n == 0,
{
}

/// Errors, warnings and information are always shown, debugging messages when
/// asked for, traces never.
pub proof fn law_shown_messages(level: Level, verbose: bool)
    ensures
        level.rank() <= shown_level(verbose).rank() <==> level is Error || level is Warn
            || level is Info || (level is Debug && verbose),
{
}

} // verus!
