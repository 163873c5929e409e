//! One-shot result of a submitted fsync.

use crate::ids::{Errno, PageIoRequestId};
use vstd::prelude::*;

verus! {

#[derive(Clone, Copy, Debug, PartialEq, Eq)]
pub enum FsyncSubmissionState {
    Queued,
    Complete(Result<(), Errno>),
    Consumed,
}

#[derive(Clone, Copy, Debug, PartialEq, Eq)]
pub struct FsyncSubmission {
    pub id: PageIoRequestId,
    pub state: FsyncSubmissionState,
}

impl FsyncSubmission {
    pub fn new(id: PageIoRequestId) -> (submission: Self)
        ensures
            submission == (FsyncSubmission { id, state: FsyncSubmissionState::Queued }),
    {
        FsyncSubmission { id, state: FsyncSubmissionState::Queued }
    }

    pub fn id(self) -> (id: PageIoRequestId)
        ensures
            id == self.id,
    {
        self.id
    }

    pub fn state(self) -> (state: FsyncSubmissionState)
        ensures
            state == self.state,
    {
        self.state
    }

    /// Record the result. Only a queued submission accepts one.
    pub fn complete(&mut self, result: Result<(), Errno>) -> (accepted: bool)
        ensures
            accepted == (old(self).state is Queued),
            accepted ==> *final(self) == (FsyncSubmission {
                id: old(self).id,
                state: FsyncSubmissionState::Complete(result),
            }),
            !accepted ==> *final(self) == *old(self),
    {
        match self.state {
            FsyncSubmissionState::Queued => {
                self.state = FsyncSubmissionState::Complete(result);
                true
            },
            _ => false,
        }
    }

    /// Hand the result out. It can be taken once.
    pub fn take(&mut self) -> (taken: Option<Result<(), Errno>>)
        ensures
            match old(self).state {
                FsyncSubmissionState::Complete(result) => {
                    &&& taken == Some(result)
                    &&& *final(self) == (FsyncSubmission {
                        id: old(self).id,
                        state: FsyncSubmissionState::Consumed,
                    })
                },
                _ => taken is None && *final(self) == *old(self),
            },
    {
        match self.state {
            FsyncSubmissionState::Complete(result) => {
                self.state = FsyncSubmissionState::Consumed;
                Some(result)
            },
            _ => None,
        }
    }
}

} // verus!
