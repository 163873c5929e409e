//! Error reporting that every observer sees once.

use crate::ids::Errno;
use vstd::prelude::*;

verus! {

/// Counts recorded errors and keeps the latest one.
#[derive(Clone, Copy, Debug, PartialEq, Eq)]
pub struct ErrorSeq {
    pub sequence: u64,
    pub latest: Option<Errno>,
}

/// How much of an [`ErrorSeq`] one observer has seen.
#[derive(Clone, Copy, Debug, PartialEq, Eq, Structural)]
pub struct ErrorCursor {
    pub observed: u64,
}

impl ErrorSeq {
    pub fn new() -> (seq: Self)
        ensures
            seq == (ErrorSeq { sequence: 0, latest: None }),
    {
        ErrorSeq { sequence: 0, latest: None }
    }

    /// What an observer at `cursor` is told.
    pub open spec fn report(self, cursor: ErrorCursor) -> Option<Errno> {
        if self.sequence == cursor.observed {
            None
        } else {
            self.latest
        }
    }

    /// Make `errno` the latest error. The counter wraps.
    pub fn record(&mut self, errno: Errno)
        ensures
            final(self).latest == Some(errno),
            final(self).sequence == if old(self).sequence == u64::MAX {
                0
            } else {
                old(self).sequence + 1
            },
    {
        self.latest = Some(errno);
        self.sequence = if self.sequence == u64::MAX {
            0
        } else {
            self.sequence + 1
        };
    }

    /// Report the latest error unless `cursor` has seen it, and advance the cursor.
    pub fn observe(&self, cursor: &mut ErrorCursor) -> (seen: Option<Errno>)
        ensures
            seen == self.report(*old(cursor)),
            final(cursor).observed == self.sequence,
    {
        if self.sequence == cursor.observed {
            return None;
        }
        cursor.observed = self.sequence;
        self.latest
    }

    pub fn current(&self) -> (sequence: u64)
        ensures
            sequence == self.sequence,
    {
        self.sequence
    }

    /// A cursor that has seen everything recorded so far.
    pub fn snapshot_cursor(&self) -> (cursor: ErrorCursor)
        ensures
            cursor.observed == self.sequence,
    {
        ErrorCursor::from_observed(self.current())
    }
}

impl Default for ErrorSeq {
    fn default() -> (seq: Self)
        ensures
            seq == (ErrorSeq { sequence: 0, latest: None }),
    {
        ErrorSeq::new()
    }
}

impl ErrorCursor {
    pub fn new() -> (cursor: Self)
        ensures
            cursor.observed == 0,
    {
        ErrorCursor { observed: 0 }
    }

    pub fn from_observed(observed: u64) -> (cursor: Self)
        ensures
            cursor.observed == observed,
    {
        ErrorCursor { observed }
    }

    pub fn observed(self) -> (observed: u64)
        ensures
            observed == self.observed,
    {
        self.observed
    }
}

impl Default for ErrorCursor {
    fn default() -> (cursor: Self)
        ensures
            cursor.observed == 0,
    {
        ErrorCursor::new()
    }
}

/// An error recorded after a cursor was up to date is reported to it exactly
/// once: the first observation returns it, the next returns nothing.
pub proof fn law_error_is_reported_once(
    before: ErrorSeq,
    after: ErrorSeq,
    errno: Errno,
    cursor: ErrorCursor,
)
    requires
        cursor.observed == before.sequence,
        after.latest == Some(errno),
        after.sequence == (if before.sequence == u64::MAX {
            0
        } else {
            before.sequence + 1
        }),
    ensures
        before.report(cursor) is None,
        after.report(cursor) == Some(errno),
        after.report(ErrorCursor { observed: after.sequence }) is None,
{
}

} // verus!
