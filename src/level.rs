use vstd::prelude::*;

verus! {

/// How important a log message is. The levels are ordered from the most verbose to
/// the least: `DEBUG < INFO < WARN < ERR`.
#[derive(PartialEq, Eq, PartialOrd, Ord, Clone, Copy, Debug, Structural)]
pub enum Level {
    Debug,
    Info,
    Warn,
    Error,
}

pub const DEBUG: Level = Level::Debug;

pub const INFO: Level = Level::Info;

pub const WARN: Level = Level::Warn;

pub const ERR: Level = Level::Error;

/// The label that marks a level in log output.
pub open spec fn label_text(l: Level) -> Seq<char> {
    match l {
        Level::Debug => "DEBUG"@,
        Level::Info => "INFO"@,
        Level::Warn => "WARN"@,
        Level::Error => "ERROR"@,
    }
}

impl Level {
    /// The position of the level on the scale, from 1 (`DEBUG`) to 4 (`ERR`).
    pub open spec fn rank(self) -> int {
        match self {
            Level::Debug => 1,
            Level::Info => 2,
            Level::Warn => 3,
            Level::Error => 4,
        }
    }

    pub fn rank_of(&self) -> (r: u8)
        ensures
            r == self.rank(),
    {
        match self {
            Level::Debug => 1,
            Level::Info => 2,
            Level::Warn => 3,
            Level::Error => 4,
        }
    }

    /// Whether this level is at or above `other`.
    pub fn at_least(&self, other: &Level) -> (r: bool)
        ensures
            r == (self.rank() >= other.rank()),
    {
        self.rank_of() >= other.rank_of()
    }

    /// The higher of the two levels.
    pub fn higher(self, other: Level) -> (r: Level)
        ensures
            r.rank() == if self.rank() >= other.rank() {
                self.rank()
            } else {
                other.rank()
            },
            r == self || r == other,
    {
        if self.at_least(&other) {
            self
        } else {
            other
        }
    }

    /// The label that marks this level in log output.
    pub fn label(&self) -> (r: &'static str)
        ensures
            r@ == label_text(*self),
    {
        match self {
            Level::Debug => "DEBUG",
            Level::Info => "INFO",
            Level::Warn => "WARN",
            Level::Error => "ERROR",
        }
    }
}

} // verus!
