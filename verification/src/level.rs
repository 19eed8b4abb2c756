use vstd::prelude::*;

verus! {

/// Severity of a diagnostic, strictly ordered: Note < Warning < Error < Fatal.
/// A rule carries a default level, configuration may override it, and a run
/// reports the highest level seen.
#[derive(Clone, Copy, Debug, PartialEq, Eq, Structural)]
pub enum Level {
    Note,
    Warning,
    Error,
    Fatal,
}

impl Level {
    /// The position of the level in the severity order.
    pub open spec fn rank(self) -> int {
        match self {
            Level::Note => 0,
            Level::Warning => 1,
            Level::Error => 2,
            Level::Fatal => 3,
        }
    }

    pub fn severity(&self) -> (r: u8)
        ensures
            r as int == self.rank(),
    {
        match self {
            Level::Note => 0,
            Level::Warning => 1,
            Level::Error => 2,
            Level::Fatal => 3,
        }
    }

    /// Whether this level is at least as severe as `other`.
    pub fn at_least(&self, other: &Level) -> (r: bool)
        ensures
            r == (self.rank() >= other.rank()),
    {
        self.severity() >= other.severity()
    }
}

} // verus!
