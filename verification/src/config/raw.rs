//! The TOML shape, deserialized leniently.
//!
//! Every field that becomes a layer 0 newtype stays a `String` here, because
//! every problem is reported at once and a deserializer stops at the first
//! error. Validation is a separate pass that accumulates diagnostics.
//!
//! Unknown keys are captured rather than rejected, because an unrecognised key is a hard
//! error - a silently ignored `wacth =` is the config-file form of the bug that made this
//! project necessary - and it is reported alongside everything else.

use vstd::prelude::*;

verus! {

/// The schema version this binary understands.
pub const VERSION: u32 = 1;

/// The keys of a table that the schema does not know, in order.
pub type Unknown = Vec<String>;

/// Read on its own first. Otherwise a config written by a newer Tycho fails as an
/// unknown key and points at the wrong thing, turning a forward-compatible addition
/// into a total backup outage.
#[derive(Debug)]
pub struct VersionProbe {
    pub version: Option<u32>,
}

#[derive(Debug)]
pub struct RawConfig {
    pub version: Option<u32>,
    pub settings: RawSettings,
    pub profile: Vec<RawProfile>,
    pub unknown: Unknown,
}

#[derive(Debug)]
pub struct RawSettings {
    pub log_level: Option<String>,
    pub unknown: Unknown,
}

#[derive(Debug)]
pub struct RawProfile {
    pub name: Option<String>,
    pub watch: Vec<RawWatch>,
    pub ignore: Vec<String>,
    pub reinclude: Vec<String>,
    pub remotes: Vec<RawRemote>,
    pub schedule: Option<RawSchedule>,
    pub use_default_ignores: Option<bool>,
    pub store_path: Option<String>,
    pub local_only: Option<bool>,
    pub unknown: Unknown,
}

/// A bare string or `{ path, name }`, matching `WatchEntry`'s two shapes.
#[derive(Debug)]
pub enum RawWatch {
    Bare(String),
    Named { path: String, name: String, unknown: Unknown },
}

#[derive(Debug)]
pub struct RawRemote {
    pub name: Option<String>,
    pub path: Option<String>,
    pub optional: Option<bool>,
    pub behind_tolerance: Option<u32>,
    pub trust_ownership: Option<bool>,
    pub unknown: Unknown,
}

/// Exactly one of the three, so a table carrying two of them has no value here.
#[derive(Debug)]
pub enum RawSchedule {
    Daily { at: String },
    Weekly { day: String, at: String },
    Every(String),
}

impl RawWatch {
    /// The path as written.
    pub open spec fn written_path(self) -> Seq<char> {
        match self {
            RawWatch::Bare(path) => path@,
            RawWatch::Named { path, .. } => path@,
        }
    }

    #[must_use]
    pub fn path(&self) -> (out: &str)
        ensures
            out@ == self.written_path(),
    {
        match self {
            RawWatch::Bare(path) => path.as_str(),
            RawWatch::Named { path, .. } => path.as_str(),
        }
    }
}

} // verus!
