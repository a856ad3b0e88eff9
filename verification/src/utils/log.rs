//! Log lines.
//!
//! A line is made of up to three parts with a space between them: the time
//! in seconds since the epoch in square brackets, the level in square
//! brackets, and the message.

use std::time::Duration;
use vstd::prelude::*;
use vstd::string::*;
use crate::utils::text::{decimal_text, push_decimal};

verus! {

/// How grave a message is, from `Debug` up to `Error`.
#[derive(Debug, Clone, Copy, PartialEq, Eq, PartialOrd, Ord, Structural)]
pub enum LogLevel {
    Debug,
    Info,
    Warning,
    Error,
}

impl LogLevel {
    /// The place of the level in the order of levels.
    pub open spec fn rank_spec(self) -> nat {
        match self {
            LogLevel::Debug => 0,
            LogLevel::Info => 1,
            LogLevel::Warning => 2,
            LogLevel::Error => 3,
        }
    }

    /// The name of the level as it stands in a line.
    pub open spec fn name_spec(self) -> Seq<char> {
        match self {
            LogLevel::Debug => "DEBUG"@,
            LogLevel::Info => "INFO"@,
            LogLevel::Warning => "WARN"@,
            LogLevel::Error => "ERROR"@,
        }
    }

    /// The sign of the level.
    pub open spec fn emoji_spec(self) -> Seq<char> {
        match self {
            LogLevel::Debug => "🔍"@,
            LogLevel::Info => "ℹ️"@,
            LogLevel::Warning => "⚠️"@,
            LogLevel::Error => "❌"@,
        }
    }

    /// The escape sequence that colours the level on a terminal.
    pub open spec fn color_code_spec(self) -> Seq<char> {
        match self {
            LogLevel::Debug => "\x1b[36m"@,
            LogLevel::Info => "\x1b[32m"@,
            LogLevel::Warning => "\x1b[33m"@,
            LogLevel::Error => "\x1b[31m"@,
        }
    }

    /// The place of the level in the order of levels.
    pub fn rank(&self) -> (r: u8)
        ensures
            r == self.rank_spec(),
    {
        match self {
            LogLevel::Debug => 0,
            LogLevel::Info => 1,
            LogLevel::Warning => 2,
            LogLevel::Error => 3,
        }
    }

    /// The name of the level as it stands in a line.
    pub fn name(&self) -> (r: &'static str)
        ensures
            r@ == self.name_spec(),
    {
        match self {
            LogLevel::Debug => "DEBUG",
            LogLevel::Info => "INFO",
            LogLevel::Warning => "WARN",
            LogLevel::Error => "ERROR",
        }
    }

    /// The sign of the level.
    pub fn emoji(&self) -> (r: &'static str)
        ensures
            r@ == self.emoji_spec(),
    {
        match self {
            LogLevel::Debug => "🔍",
            LogLevel::Info => "ℹ️",
            LogLevel::Warning => "⚠️",
            LogLevel::Error => "❌",
        }
    }

    /// The escape sequence that colours the level on a terminal.
    pub fn color_code(&self) -> (r: &'static str)
        ensures
            r@ == self.color_code_spec(),
    {
        match self {
            LogLevel::Debug => "\x1b[36m",
            LogLevel::Info => "\x1b[32m",
            LogLevel::Warning => "\x1b[33m",
            LogLevel::Error => "\x1b[31m",
        }
    }
}

/// How log lines are made, and from which level on.
#[derive(Debug, Clone, Copy, PartialEq, Eq, Structural)]
pub struct Logger {
    pub min_level: LogLevel,
    pub use_colors: bool,
    pub use_emojis: bool,
    pub show_timestamp: bool,
}

impl Default for Logger {
    /// From `Info` on, with colours, signs and time.
    fn default() -> (logger: Self)
        ensures
            logger == (Logger {
                min_level: LogLevel::Info,
                use_colors: true,
                use_emojis: true,
                show_timestamp: true,
            }),
    {
        Self { min_level: LogLevel::Info, use_colors: true, use_emojis: true, show_timestamp: true }
    }
}

/// `SystemTime::elapsed` of the standard library, asked of the epoch of
/// Unix: the time that has passed since then, or nothing for a clock that
/// stands before the epoch. Nothing is said of the value.
#[verifier::external_body]
fn since_epoch() -> Option<Duration> {
    match std::time::UNIX_EPOCH.elapsed() {
        Ok(since) => Some(since),
        Err(_) => None,
    }
}

/// `Duration::as_secs` of the standard library: the whole seconds of a span
/// of time. Nothing is said of the value.
pub assume_specification[ Duration::as_secs ](span: &Duration) -> (seconds: u64)
;

/// The whole seconds since the epoch of Unix, zero for a clock that stands
/// before it.
fn unix_seconds() -> u64 {
    match since_epoch() {
        Some(span) => span.as_secs(),
        None => 0,
    }
}

impl Logger {
    /// The level in a line: its name, with its sign and a space before it
    /// if signs are wanted; and all of that between the level's colour and
    /// the reset sequence if colours are wanted.
    pub open spec fn level_text(self, level: LogLevel) -> Seq<char> {
        let plain = if self.use_emojis {
            level.emoji_spec() + " "@ + level.name_spec()
        } else {
            level.name_spec()
        };
        if self.use_colors {
            level.color_code_spec() + plain + "\x1b[0m"@
        } else {
            plain
        }
    }

    /// The line for `message` at `level`, written at the time `timestamp`.
    /// The time stands in the line only if the logger shows it.
    pub open spec fn line(self, level: LogLevel, message: Seq<char>, timestamp: u64) -> Seq<char> {
        let head = if self.show_timestamp {
            "["@ + decimal_text(timestamp as nat) + "] "@
        } else {
            seq![]
        };
        head + "["@ + self.level_text(level) + "] "@ + message
    }

    /// The logger with the default settings.
    pub fn new() -> (logger: Self)
        ensures
            logger == (Logger {
                min_level: LogLevel::Info,
                use_colors: true,
                use_emojis: true,
                show_timestamp: true,
            }),
    {
        Self { min_level: LogLevel::Info, use_colors: true, use_emojis: true, show_timestamp: true }
    }

    /// The logger, logging from `level` on.
    pub fn with_level(self, level: LogLevel) -> (logger: Self)
        ensures
            logger == (Logger { min_level: level, ..self }),
    {
        Self { min_level: level, ..self }
    }

    /// The logger, with or without colours.
    pub fn with_colors(self, colors: bool) -> (logger: Self)
        ensures
            logger == (Logger { use_colors: colors, ..self }),
    {
        Self { use_colors: colors, ..self }
    }

    /// The logger, with or without signs.
    pub fn with_emojis(self, emojis: bool) -> (logger: Self)
        ensures
            logger == (Logger { use_emojis: emojis, ..self }),
    {
        Self { use_emojis: emojis, ..self }
    }

    /// The logger, with or without the time.
    pub fn with_timestamp(self, timestamp: bool) -> (logger: Self)
        ensures
            logger == (Logger { show_timestamp: timestamp, ..self }),
    {
        Self { show_timestamp: timestamp, ..self }
    }

    /// Whether a message at `level` is logged: its level is not below the
    /// logger's.
    pub fn logs(&self, level: LogLevel) -> (r: bool)
        ensures
            r == (level.rank_spec() >= self.min_level.rank_spec()),
    {
        level.rank() >= self.min_level.rank()
    }

    /// The line for `message` at `level`, written at the time `timestamp`.
    pub fn format_at(&self, level: LogLevel, message: &str, timestamp: u64) -> (text: String)
        ensures
            text@ == self.line(level, message@, timestamp),
    {
        let mut text = String::new();
        if self.show_timestamp {
            text.append("[");
            push_decimal(&mut text, timestamp);
            text.append("] ");
        }
        let ghost head = text@;
        assert(head =~= if self.show_timestamp {
            "["@ + decimal_text(timestamp as nat) + "] "@
        } else {
            seq![]
        });
        text.append("[");
        if self.use_colors {
            text.append(level.color_code());
        }
        if self.use_emojis {
            text.append(level.emoji());
            text.append(" ");
        }
        text.append(level.name());
        if self.use_colors {
            text.append("\x1b[0m");
        }
        assert(text@ =~= head + "["@ + self.level_text(level));
        text.append("] ");
        text.append(message);
        assert(text@ =~= self.line(level, message@, timestamp));
        text
    }

    /// The line for `message` at `level`, written now. The time in it, if
    /// it is shown, is whatever the clock gave.
    pub fn format_message(&self, level: LogLevel, message: &str) -> (text: String)
        ensures
            exists|timestamp: u64| text@ == #[trigger] self.line(level, message@, timestamp),
            !self.show_timestamp ==> text@ == self.line(level, message@, 0),
    {
        let timestamp = if self.show_timestamp {
            unix_seconds()
        } else {
            0
        };
        self.format_at(level, message, timestamp)
    }
}

} // verus!
