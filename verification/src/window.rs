//! The window of expiry instants that the selection admits.

use vstd::prelude::*;

verus! {

/// A span of instants, in milliseconds since the Unix epoch, open at `start`
/// and closed at `end`.
#[derive(Debug, Clone, Copy, PartialEq, Eq)]
pub struct ExpiryWindow {
    pub start: i64,
    pub end: i64,
}

impl ExpiryWindow {
    /// The window ends later than it starts.
    pub open spec fn well_formed(self) -> bool {
        self.start < self.end
    }

    /// An expiry is admitted when it is present, later than `start` and not
    /// later than `end`.
    pub open spec fn admits(self, expiry: Option<i64>) -> bool {
        match expiry {
            Some(at) => self.start < at && at <= self.end,
            None => false,
        }
    }

    /// Decides whether the window admits an expiry.
    pub fn contains(&self, expiry: Option<i64>) -> (inside: bool)
        ensures
            inside == self.admits(expiry),
    {
        match expiry {
            Some(at) => self.start < at && at <= self.end,
            None => false,
        }
    }
}

} // verus!
