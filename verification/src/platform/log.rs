//! The log file at `~/Library/Logs/tycho/<profile>.log`, rotated by size.
//!
//! Separate from the scheduler's own `.out.log` and `.err.log`, which capture whatever the
//! process printed before Tycho's own logging could start - a crash in argument
//! parsing still leaves a trace there. This is the file `tycho log` tails.

use crate::config::moment;
use crate::config::moment::{clock_text, now_here, offset_at};
use crate::config::LogLevel;
use crate::octets::{copy_bytes, extend};
use crate::platform;
use crate::platform::{log_dir, under, Host};
use crate::primitives::path;
use crate::primitives::path::{PathError, Vars};
use crate::text;
use crate::text::{cat2, cat6, left};
use vstd::prelude::*;
use vstd::utf8::*;

verus! {

/// Rotate at 4 MB, keeping one previous file.
///
/// Big enough that a year of weekly runs never rotates, small enough that a run
/// looping on a per-file warning cannot fill a disk. One generation, because the
/// store's own commit history is the durable record - this file is for diagnosing the
/// last thing that went wrong, not for archaeology.
pub const ROTATE_AT: u64 = 4_194_304;

#[derive(Clone, Copy, Debug, PartialEq, Eq, PartialOrd, Ord, Structural)]
pub enum Level {
    Error,
    Warn,
    Info,
    Debug,
}

impl Level {
    /// How chatty a level is: an error least, a debug line most.
    pub open spec fn rank(self) -> int {
        match self {
            Level::Error => 0,
            Level::Warn => 1,
            Level::Info => 2,
            Level::Debug => 3,
        }
    }

    fn ranked(self) -> (out: u8)
        ensures
            out == self.rank(),
    {
        match self {
            Level::Error => 0,
            Level::Warn => 1,
            Level::Info => 2,
            Level::Debug => 3,
        }
    }

    pub open spec fn word_text(self) -> Seq<char> {
        match self {
            Level::Error => "error"@,
            Level::Warn => "warn"@,
            Level::Info => "info"@,
            Level::Debug => "debug"@,
        }
    }

    fn word(self) -> (out: &'static str)
        ensures
            out@ == self.word_text(),
    {
        match self {
            Level::Error => "error",
            Level::Warn => "warn",
            Level::Info => "info",
            Level::Debug => "debug",
        }
    }

    #[must_use]
    pub fn from_config(level: LogLevel) -> (out: Level)
        ensures
            out.word_text() == level.word(),
            out == match level {
                LogLevel::Error => Level::Error,
                LogLevel::Warn => Level::Warn,
                LogLevel::Info => Level::Info,
                LogLevel::Debug => Level::Debug,
            },
    {
        match level {
            LogLevel::Error => Level::Error,
            LogLevel::Warn => Level::Warn,
            LogLevel::Info => Level::Info,
            LogLevel::Debug => Level::Debug,
        }
    }
}

/// One profile's log.
#[derive(Debug, PartialEq, Eq)]
pub struct Log {
    path: Vec<u8>,
    threshold: Level,
}

/// A line of the log.
pub open spec fn line_text(stamp: Seq<char>, level: Level, message: Seq<char>) -> Seq<char> {
    stamp + " "@ + text::padded_right(level.word_text(), 5) + " "@ + message + "\n"@
}

impl Log {
    pub closed spec fn file(self) -> Seq<u8> {
        self.path@
    }

    pub closed spec fn limit(self) -> Level {
        self.threshold
    }

    /// # Errors
    ///
    /// If there is no home directory.
    pub fn open(
        profile: &str,
        threshold: Level,
        host: Host,
        home: Option<&str>,
        vars: &Vars,
    ) -> (out: Result<Log, PathError>)
        ensures
            match path::resolved(host.logs(), path::view_str_opt(home), *vars) {
                Ok(dir) => out matches Ok(log) && log.file() == platform::under_raw(
                    dir,
                    profile@ + ".log"@,
                ) && log.limit() == threshold,
                Err(fault) => out matches Err(e) && e@ == fault,
            },
    {
        match path_for(profile, host, home, vars) {
            Ok(path) => Ok(Log { path, threshold }),
            Err(e) => Err(e),
        }
    }

    /// A log kept in a file of the caller's choosing.
    pub fn at(path: Vec<u8>, threshold: Level) -> (out: Log)
        ensures
            out.file() == path@,
            out.limit() == threshold,
    {
        Log { path, threshold }
    }

    #[must_use]
    pub fn path(&self) -> (out: &[u8])
        ensures
            out@ == self.file(),
    {
        &self.path
    }

    /// Where a full file goes, keeping one generation.
    #[must_use]
    pub fn rotated(&self) -> (out: Vec<u8>)
        ensures
            out@ == self.file() + encode_utf8(".1"@),
    {
        let mut out = copy_bytes(&self.path);
        extend(&mut out, ".1".as_bytes());
        out
    }

    /// Whether a file of this many bytes is set aside before the next line.
    #[must_use]
    pub fn rotates(bytes: u64) -> (out: bool)
        ensures
            out == (bytes >= ROTATE_AT),
    {
        bytes >= ROTATE_AT
    }

    /// The line to append, or nothing where the level is beyond the threshold.
    ///
    /// **Never fails a run.** A backup that could not be written down still happened,
    /// and refusing to back up because a log file is unwritable would be the tool
    /// choosing its own diary over its purpose.
    pub fn write(&self, level: Level, message: &str, stamp: &str) -> (out: Option<String>)
        ensures
            match out {
                Some(line) => level.rank() <= self.limit().rank() && line@ == line_text(
                    stamp@,
                    level,
                    message@,
                ),
                None => level.rank() > self.limit().rank(),
            },
    {
        if level.ranked() > self.threshold.ranked() {
            return None;
        }
        let word = left(level.word(), 5);
        Some(cat6(stamp, " ", &word, " ", message, "\n"))
    }

    /// [`Log::write`] with the present moment as its stamp.
    pub fn write_now(&self, level: Level, message: &str) -> (out: Option<String>)
        ensures
            match out {
                Some(line) => level.rank() <= self.limit().rank() && exists|
                    zone: jiff::tz::TimeZone,
                    now: int,
                |
                    moment::in_range(now) && line@ == line_text(
                        moment::shown_text(
                            now,
                            #[trigger] moment::offset_in(zone, now),
                            "%F %H:%M:%S"@,
                        ),
                        level,
                        message@,
                    ),
                None => level.rank() > self.limit().rank(),
            },
    {
        let now = now_here();
        let stamp = clock_text(now.nanos, offset_at(now.nanos, &now.zone), "%F %H:%M:%S");
        self.write(level, message, &stamp)
    }
}

/// # Errors
///
/// If there is no home directory.
pub fn path_for(profile: &str, host: Host, home: Option<&str>, vars: &Vars) -> (out: Result<
    Vec<u8>,
    PathError,
>)
    ensures
        match path::resolved(host.logs(), path::view_str_opt(home), *vars) {
            Ok(dir) => out matches Ok(p) && p@ == platform::under_raw(dir, profile@ + ".log"@),
            Err(fault) => out matches Err(e) && e@ == fault,
        },
{
    let dir = match log_dir(host, home, vars) {
        Ok(dir) => dir,
        Err(e) => return Err(e),
    };
    let name = cat2(profile, ".log");
    Ok(under(&dir, &name))
}

/// An error is the least chatty of the levels, then a warning, then what informs, and what is there
/// to debug by the most; each is written by its own word.
pub proof fn levels_grow_chattier(a: Level, b: Level)
    ensures
        Level::Error.rank() < Level::Warn.rank() < Level::Info.rank() < Level::Debug.rank(),
        a.rank() == b.rank() <==> a == b,
        a.word_text() == b.word_text() ==> a == b,
{
    reveal_strlit("error");
    reveal_strlit("warn");
    reveal_strlit("info");
    reveal_strlit("debug");
    assert("error"@[0] == 'e' && "warn"@[0] == 'w' && "info"@[0] == 'i' && "debug"@[0] == 'd');
}

} // verus!
