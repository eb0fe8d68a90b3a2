use vstd::prelude::*;

verus! {

/// Severity of a diagnostic record, from least to most severe.
#[derive(Clone, Copy, Debug, PartialEq, Eq, Structural, Hash)]
pub enum Level {
    Trace,
    Debug,
    Info,
    Warn,
    Error,
}

impl Level {
    /// Position of the level in the order `Trace < Debug < Info < Warn < Error`.
    pub open spec fn rank(self) -> nat {
        match self {
            Level::Trace => 0,
            Level::Debug => 1,
            Level::Info => 2,
            Level::Warn => 3,
            Level::Error => 4,
        }
    }

    /// Upper-case name of the level, as shown to users.
    pub open spec fn spec_name(self) -> Seq<char> {
        match self {
            Level::Trace => "TRACE"@,
            Level::Debug => "DEBUG"@,
            Level::Info => "INFO"@,
            Level::Warn => "WARN"@,
            Level::Error => "ERROR"@,
        }
    }

    pub fn as_str(&self) -> (r: &'static str)
        ensures
            r@ == self.spec_name(),
    {
        match self {
            Level::Trace => "TRACE",
            Level::Debug => "DEBUG",
            Level::Info => "INFO",
            Level::Warn => "WARN",
            Level::Error => "ERROR",
        }
    }

    /// Whether `self` is at least as severe as `other`.
    pub fn at_least(&self, other: &Level) -> (r: bool)
        ensures
            r == (self.rank() >= other.rank()),
    {
        self.severity() >= other.severity()
    }

    fn severity(&self) -> (r: u8)
        ensures
            r == self.rank(),
    {
        match self {
            Level::Trace => 0,
            Level::Debug => 1,
            Level::Info => 2,
            Level::Warn => 3,
            Level::Error => 4,
        }
    }
}

/// One independent flag per severity: a record passes iff its level's flag is set.
#[derive(Clone, Copy, Debug, PartialEq, Eq, Structural, Hash)]
pub struct LevelFilter {
    pub trace: bool,
    pub debug: bool,
    pub info: bool,
    pub warn: bool,
    pub error: bool,
}

impl LevelFilter {
    /// The flag that governs records of `level`.
    pub open spec fn allows(self, level: Level) -> bool {
        match level {
            Level::Trace => self.trace,
            Level::Debug => self.debug,
            Level::Info => self.info,
            Level::Warn => self.warn,
            Level::Error => self.error,
        }
    }

    /// The flags a filter starts with: everything but `Trace` passes.
    pub open spec fn default_flags() -> LevelFilter {
        LevelFilter { trace: false, debug: true, info: true, warn: true, error: true }
    }

    /// Whether no flag is set, so that no record passes.
    pub open spec fn blocks_all(self) -> bool {
        !self.trace && !self.debug && !self.info && !self.warn && !self.error
    }

    pub fn matches(&self, level: Level) -> (r: bool)
        ensures
            r == self.allows(level),
    {
        match level {
            Level::Trace => self.trace,
            Level::Debug => self.debug,
            Level::Info => self.info,
            Level::Warn => self.warn,
            Level::Error => self.error,
        }
    }

    /// A filter with every flag set.
    pub fn all() -> (r: LevelFilter)
        ensures
            forall|l: Level| r.allows(l),
    {
        LevelFilter { trace: true, debug: true, info: true, warn: true, error: true }
    }

    /// A filter with no flag set.
    pub fn none() -> (r: LevelFilter)
        ensures
            r.blocks_all(),
            forall|l: Level| !r.allows(l),
    {
        LevelFilter { trace: false, debug: false, info: false, warn: false, error: false }
    }
}

impl Default for LevelFilter {
    /// Everything but `Trace` passes.
    fn default() -> (r: LevelFilter)
        ensures
            r == LevelFilter::default_flags(),
    {
        LevelFilter { trace: false, debug: true, info: true, warn: true, error: true }
    }
}

} // verus!
