//! State of one page: who fetches it, which frame holds it, and which version
//! of its contents is dirty or on its way out.

use crate::ids::{bump_nonzero, next_nonzero, Errno, PageGeneration, Ppn};
use vstd::prelude::*;

verus! {

#[derive(Clone, Copy, Debug, PartialEq, Eq, Structural)]
pub enum PageSlotState {
    Empty,
    Resident { ppn: Ppn },
    Fetching,
    Dirty { ppn: Ppn },
    Writeback { ppn: Ppn, submitted_generation: PageGeneration, redirtied: bool },
    Error { errno: Errno },
}

impl PageSlotState {
    /// The frame that holds the page, where one does.
    pub open spec fn frame(self) -> Option<Ppn> {
        match self {
            PageSlotState::Resident { ppn } => Some(ppn),
            PageSlotState::Dirty { ppn } => Some(ppn),
            PageSlotState::Writeback { ppn, .. } => Some(ppn),
            _ => None,
        }
    }

    pub fn resident_ppn(&self) -> (ppn: Option<Ppn>)
        ensures
            ppn == self.frame(),
    {
        match self {
            PageSlotState::Resident { ppn } => Some(*ppn),
            PageSlotState::Dirty { ppn } => Some(*ppn),
            PageSlotState::Writeback { ppn, .. } => Some(*ppn),
            _ => None,
        }
    }
}

#[derive(Clone, Copy, Debug, PartialEq, Eq, Structural)]
pub struct PageSlotSnapshot {
    pub state: PageSlotState,
    pub generation: PageGeneration,
}

#[derive(Clone, Copy, Debug, PartialEq, Eq, Structural)]
pub enum PageSlotFetch {
    Owner { generation: PageGeneration },
    Joined { generation: PageGeneration },
    Resident { ppn: Ppn, generation: PageGeneration },
    Blocked { state: PageSlotState, generation: PageGeneration },
}

#[derive(Clone, Copy, Debug, PartialEq, Eq, Structural)]
#[allow(inconsistent_fields)]
pub enum PageSlotCompletionError {
    GenerationMismatch { current: PageGeneration, completed: PageGeneration },
    MismatchedFrame { expected: Ppn, current: Ppn },
    NotFetching { state: PageSlotState, generation: PageGeneration },
    Backend(Errno),
}

/// Where a page stands against the generation that an fsync captured.
#[derive(Clone, Copy, Debug, PartialEq, Eq, Structural)]
pub enum PageSlotFsyncStatus {
    Clean,
    NeedsWriteback { generation: PageGeneration },
    WaitingForWriteback { submitted_generation: PageGeneration },
    WaitingForEarlierWriteback {
        submitted_generation: PageGeneration,
        frontier: PageGeneration,
    },
    Error { errno: Errno },
}

#[derive(Debug)]
pub struct PageSlot {
    pub inner: PageSlotSnapshot,
}

/// Result of a transition: the slot after it, or why it was refused.
pub type SlotResult = Result<PageSlotSnapshot, PageSlotCompletionError>;

impl View for PageSlot {
    type V = PageSlotSnapshot;

    open spec fn view(&self) -> PageSlotSnapshot {
        self.inner
    }
}

impl PageSlotSnapshot {
    pub open spec fn empty() -> Self {
        PageSlotSnapshot { state: PageSlotState::Empty, generation: PageGeneration(0) }
    }

    /// The generation that follows this one.
    pub open spec fn next_generation(self) -> PageGeneration {
        PageGeneration(next_nonzero(self.generation.0))
    }

    /// This slot in `state`, as a new version.
    pub open spec fn renewed(self, state: PageSlotState) -> Self {
        PageSlotSnapshot { state, generation: self.next_generation() }
    }

    /// This slot in `state`, as the same version.
    pub open spec fn in_state(self, state: PageSlotState) -> Self {
        PageSlotSnapshot { state, generation: self.generation }
    }

    pub open spec fn not_fetching(self) -> SlotResult {
        Err(
            PageSlotCompletionError::NotFetching {
                state: self.state,
                generation: self.generation,
            },
        )
    }

    pub open spec fn stale(self, completed: PageGeneration) -> SlotResult {
        Err(
            PageSlotCompletionError::GenerationMismatch { current: self.generation, completed },
        )
    }

    /// Outcome of completing a fetch of generation `generation`.
    pub open spec fn fetch_completed(
        self,
        generation: PageGeneration,
        result: Result<Ppn, Errno>,
    ) -> SlotResult {
        if self.generation != generation {
            self.stale(generation)
        } else if self.state !is Fetching {
            self.not_fetching()
        } else {
            match result {
                Ok(ppn) => Ok(self.in_state(PageSlotState::Resident { ppn })),
                Err(errno) => Ok(self.in_state(PageSlotState::Error { errno })),
            }
        }
    }

    /// Outcome of a write to the page.
    pub open spec fn dirtied(self) -> SlotResult {
        match self.state {
            PageSlotState::Resident { ppn } => Ok(self.renewed(PageSlotState::Dirty { ppn })),
            PageSlotState::Dirty { ppn } => Ok(self.renewed(PageSlotState::Dirty { ppn })),
            PageSlotState::Writeback { ppn, submitted_generation, .. } => Ok(
                self.renewed(
                    PageSlotState::Writeback { ppn, submitted_generation, redirtied: true },
                ),
            ),
            _ => self.not_fetching(),
        }
    }

    /// Outcome of starting writeback of the current version.
    pub open spec fn writeback_begun(self) -> SlotResult {
        match self.state {
            PageSlotState::Resident { ppn } | PageSlotState::Dirty { ppn } => Ok(
                self.in_state(
                    PageSlotState::Writeback {
                        ppn,
                        submitted_generation: self.generation,
                        redirtied: false,
                    },
                ),
            ),
            _ => self.not_fetching(),
        }
    }

    /// Outcome of a finished writeback that was submitted as `generation`. A
    /// page written meanwhile stays dirty whatever the result.
    pub open spec fn writeback_completed(
        self,
        generation: PageGeneration,
        result: Result<(), Errno>,
    ) -> SlotResult {
        match self.state {
            PageSlotState::Writeback { ppn, submitted_generation, redirtied } => {
                if submitted_generation != generation {
                    self.stale(generation)
                } else if redirtied {
                    Ok(self.in_state(PageSlotState::Dirty { ppn }))
                } else {
                    match result {
                        Ok(()) => Ok(self.in_state(PageSlotState::Resident { ppn })),
                        Err(errno) => Ok(self.in_state(PageSlotState::Error { errno })),
                    }
                }
            },
            _ => self.not_fetching(),
        }
    }

    /// Outcome of giving up a writeback of `generation` that was never submitted.
    pub open spec fn writeback_aborted(self, generation: PageGeneration) -> SlotResult {
        match self.state {
            PageSlotState::Writeback { ppn, submitted_generation, .. } => {
                if submitted_generation != generation {
                    self.stale(generation)
                } else {
                    Ok(self.in_state(PageSlotState::Dirty { ppn }))
                }
            },
            _ => self.not_fetching(),
        }
    }

    /// Outcome of withdrawing the binding to `ppn` as of `generation`.
    pub open spec fn withdrawn(self, generation: PageGeneration, ppn: Ppn) -> SlotResult {
        if self.generation != generation {
            self.stale(generation)
        } else {
            match self.state.frame() {
                None => self.not_fetching(),
                Some(current) => if current != ppn {
                    Err(PageSlotCompletionError::MismatchedFrame { expected: ppn, current })
                } else {
                    Ok(self.renewed(PageSlotState::Empty))
                },
            }
        }
    }

    /// Outcome of moving the binding from `expected` to `replacement`. A page
    /// in writeback cannot move.
    pub open spec fn replaced(
        self,
        generation: PageGeneration,
        expected: Ppn,
        replacement: Ppn,
    ) -> SlotResult {
        if self.generation != generation {
            self.stale(generation)
        } else {
            match self.state {
                PageSlotState::Resident { ppn } | PageSlotState::Dirty { ppn } => if ppn
                    != expected {
                    Err(PageSlotCompletionError::MismatchedFrame { expected, current: ppn })
                } else if self.state is Resident {
                    Ok(self.renewed(PageSlotState::Resident { ppn: replacement }))
                } else {
                    Ok(self.renewed(PageSlotState::Dirty { ppn: replacement }))
                },
                _ => self.not_fetching(),
            }
        }
    }

    /// Outcome of declaring the dirty version `generation` in `ppn` clean.
    pub open spec fn cleaned(self, generation: PageGeneration, ppn: Ppn) -> SlotResult {
        if self.generation != generation {
            self.stale(generation)
        } else {
            match self.state {
                PageSlotState::Dirty { ppn: current } => if current != ppn {
                    Err(PageSlotCompletionError::MismatchedFrame { expected: ppn, current })
                } else {
                    Ok(self.in_state(PageSlotState::Resident { ppn }))
                },
                _ => self.not_fetching(),
            }
        }
    }

    /// Where the page stands against `frontier`.
    pub open spec fn fsync_status(self, frontier: PageGeneration) -> PageSlotFsyncStatus {
        match self.state {
            PageSlotState::Dirty { .. } => if self.generation.0 <= frontier.0 {
                PageSlotFsyncStatus::NeedsWriteback { generation: self.generation }
            } else {
                PageSlotFsyncStatus::Clean
            },
            PageSlotState::Writeback { submitted_generation, .. } => if submitted_generation.0
                >= frontier.0 {
                PageSlotFsyncStatus::WaitingForWriteback { submitted_generation }
            } else {
                PageSlotFsyncStatus::WaitingForEarlierWriteback { submitted_generation, frontier }
            },
            PageSlotState::Error { errno } => PageSlotFsyncStatus::Error { errno },
            _ => PageSlotFsyncStatus::Clean,
        }
    }
}

/// The slot after a transition with outcome `result`: a refusal changes nothing.
pub open spec fn after(before: PageSlotSnapshot, result: SlotResult) -> PageSlotSnapshot {
    match result {
        Ok(snapshot) => snapshot,
        Err(_) => before,
    }
}

impl PageSlot {
    pub fn new() -> (slot: Self)
        ensures
            slot@ == PageSlotSnapshot::empty(),
    {
        PageSlot {
            inner: PageSlotSnapshot {
                state: PageSlotState::Empty,
                generation: PageGeneration::new(0),
            },
        }
    }

    pub fn snapshot(&self) -> (snapshot: PageSlotSnapshot)
        ensures
            snapshot == self@,
    {
        self.inner
    }

    pub fn generation(&self) -> (generation: PageGeneration)
        ensures
            generation == self@.generation,
    {
        self.inner.generation
    }

    fn bump_generation(&mut self)
        ensures
            final(self)@.state == old(self)@.state,
            final(self)@.generation == old(self)@.next_generation(),
    {
        self.inner.generation = PageGeneration::new(bump_nonzero(self.inner.generation.0));
    }

    /// Classify the page against the generation that an fsync captured.
    pub fn fsync_status(&self, frontier: PageGeneration) -> (status: PageSlotFsyncStatus)
        ensures
            status == self@.fsync_status(frontier),
    {
        match self.inner.state {
            PageSlotState::Resident { .. } | PageSlotState::Empty | PageSlotState::Fetching => {
                PageSlotFsyncStatus::Clean
            },
            PageSlotState::Dirty { .. } => {
                if self.inner.generation.0 <= frontier.0 {
                    PageSlotFsyncStatus::NeedsWriteback { generation: self.inner.generation }
                } else {
                    PageSlotFsyncStatus::Clean
                }
            },
            PageSlotState::Writeback { submitted_generation, .. } => {
                if submitted_generation.0 >= frontier.0 {
                    PageSlotFsyncStatus::WaitingForWriteback { submitted_generation }
                } else {
                    PageSlotFsyncStatus::WaitingForEarlierWriteback {
                        submitted_generation,
                        frontier,
                    }
                }
            },
            PageSlotState::Error { errno } => PageSlotFsyncStatus::Error { errno },
        }
    }

    /// Start a fetch, or learn why none is to be started. Only the owner of a
    /// generation fetches; later callers join it.
    pub fn begin_fetch(&mut self) -> (fetch: PageSlotFetch)
        ensures
            match old(self)@.state {
                PageSlotState::Empty | PageSlotState::Error { .. } => {
                    &&& final(self)@ == old(self)@.renewed(PageSlotState::Fetching)
                    &&& fetch == (PageSlotFetch::Owner { generation: final(self)@.generation })
                },
                PageSlotState::Fetching => {
                    &&& final(self)@ == old(self)@
                    &&& fetch == (PageSlotFetch::Joined { generation: old(self)@.generation })
                },
                PageSlotState::Resident { ppn } | PageSlotState::Dirty { ppn } => {
                    &&& final(self)@ == old(self)@
                    &&& fetch == (PageSlotFetch::Resident {
                        ppn,
                        generation: old(self)@.generation,
                    })
                },
                PageSlotState::Writeback { .. } => {
                    &&& final(self)@ == old(self)@
                    &&& fetch == (PageSlotFetch::Blocked {
                        state: old(self)@.state,
                        generation: old(self)@.generation,
                    })
                },
            },
    {
        match self.inner.state {
            PageSlotState::Empty | PageSlotState::Error { .. } => {
                self.bump_generation();
                self.inner.state = PageSlotState::Fetching;
                PageSlotFetch::Owner { generation: self.inner.generation }
            },
            PageSlotState::Fetching => PageSlotFetch::Joined { generation: self.inner.generation },
            PageSlotState::Resident { ppn } => PageSlotFetch::Resident {
                ppn,
                generation: self.inner.generation,
            },
            PageSlotState::Dirty { ppn } => PageSlotFetch::Resident {
                ppn,
                generation: self.inner.generation,
            },
            PageSlotState::Writeback { .. } => PageSlotFetch::Blocked {
                state: self.inner.state,
                generation: self.inner.generation,
            },
        }
    }

    pub fn complete_fetch(&mut self, generation: PageGeneration, result: Result<Ppn, Errno>) -> (r:
        SlotResult)
        ensures
            r == old(self)@.fetch_completed(generation, result),
            final(self)@ == after(old(self)@, r),
    {
        if self.inner.generation != generation {
            return self.generation_mismatch(generation);
        }
        match self.inner.state {
            PageSlotState::Fetching => {},
            _ => return self.not_fetching(),
        }
        self.inner.state = match result {
            Ok(ppn) => PageSlotState::Resident { ppn },
            Err(errno) => PageSlotState::Error { errno },
        };
        Ok(self.inner)
    }

    pub fn mark_dirty(&mut self) -> (r: SlotResult)
        ensures
            r == old(self)@.dirtied(),
            final(self)@ == after(old(self)@, r),
    {
        match self.inner.state {
            PageSlotState::Resident { ppn } => {
                self.bump_generation();
                self.inner.state = PageSlotState::Dirty { ppn };
                Ok(self.inner)
            },
            PageSlotState::Dirty { ppn } => {
                self.bump_generation();
                self.inner.state = PageSlotState::Dirty { ppn };
                Ok(self.inner)
            },
            PageSlotState::Writeback { ppn, submitted_generation, .. } => {
                self.bump_generation();
                self.inner.state = PageSlotState::Writeback {
                    ppn,
                    submitted_generation,
                    redirtied: true,
                };
                Ok(self.inner)
            },
            _ => self.not_fetching(),
        }
    }

    pub fn begin_writeback(&mut self) -> (r: SlotResult)
        ensures
            r == old(self)@.writeback_begun(),
            final(self)@ == after(old(self)@, r),
    {
        match self.inner.state {
            PageSlotState::Dirty { ppn } | PageSlotState::Resident { ppn } => {
                self.inner.state = PageSlotState::Writeback {
                    ppn,
                    submitted_generation: self.inner.generation,
                    redirtied: false,
                };
                Ok(self.inner)
            },
            _ => self.not_fetching(),
        }
    }

    pub fn complete_writeback(&mut self, generation: PageGeneration, result: Result<(), Errno>) -> (r:
        SlotResult)
        ensures
            r == old(self)@.writeback_completed(generation, result),
            final(self)@ == after(old(self)@, r),
    {
        match self.inner.state {
            PageSlotState::Writeback { ppn, submitted_generation, redirtied } => {
                if submitted_generation != generation {
                    return self.generation_mismatch(generation);
                }
                self.inner.state = if redirtied {
                    PageSlotState::Dirty { ppn }
                } else {
                    match result {
                        Ok(()) => PageSlotState::Resident { ppn },
                        Err(errno) => PageSlotState::Error { errno },
                    }
                };
                Ok(self.inner)
            },
            _ => self.not_fetching(),
        }
    }

    /// Restore a writeback that was never handed to a backend executor.
    pub fn abort_writeback(&mut self, generation: PageGeneration) -> (r: SlotResult)
        ensures
            r == old(self)@.writeback_aborted(generation),
            final(self)@ == after(old(self)@, r),
    {
        match self.inner.state {
            PageSlotState::Writeback { ppn, submitted_generation, .. } => {
                if submitted_generation != generation {
                    return self.generation_mismatch(generation);
                }
                self.inner.state = PageSlotState::Dirty { ppn };
                Ok(self.inner)
            },
            _ => self.not_fetching(),
        }
    }

    /// Forget the page, whatever its state.
    pub fn invalidate(&mut self) -> (snapshot: PageSlotSnapshot)
        ensures
            snapshot == old(self)@.renewed(PageSlotState::Empty),
            final(self)@ == snapshot,
    {
        self.bump_generation();
        self.inner.state = PageSlotState::Empty;
        self.inner
    }

    /// Withdraw the exact binding that the caller observed, before its cache
    /// entry is removed. A binding that has changed since is left alone.
    pub fn withdraw_if_matches(&mut self, expected_generation: PageGeneration, expected_ppn: Ppn) -> (r:
        SlotResult)
        ensures
            r == old(self)@.withdrawn(expected_generation, expected_ppn),
            final(self)@ == after(old(self)@, r),
    {
        if self.inner.generation != expected_generation {
            return self.generation_mismatch(expected_generation);
        }
        match self.inner.state.resident_ppn() {
            None => self.not_fetching(),
            Some(current) => {
                if current != expected_ppn {
                    return Err(
                        PageSlotCompletionError::MismatchedFrame {
                            expected: expected_ppn,
                            current,
                        },
                    );
                }
                self.bump_generation();
                self.inner.state = PageSlotState::Empty;
                Ok(self.inner)
            },
        }
    }

    /// Move the exact binding that the caller observed to another frame. A
    /// writeback in flight owns the old frame, so its page cannot move.
    pub fn replace_if_matches(
        &mut self,
        expected_generation: PageGeneration,
        expected_ppn: Ppn,
        replacement_ppn: Ppn,
    ) -> (r: SlotResult)
        ensures
            r == old(self)@.replaced(expected_generation, expected_ppn, replacement_ppn),
            final(self)@ == after(old(self)@, r),
    {
        if self.inner.generation != expected_generation {
            return self.generation_mismatch(expected_generation);
        }
        match self.inner.state {
            PageSlotState::Resident { ppn } => {
                if ppn != expected_ppn {
                    return Err(
                        PageSlotCompletionError::MismatchedFrame {
                            expected: expected_ppn,
                            current: ppn,
                        },
                    );
                }
                self.bump_generation();
                self.inner.state = PageSlotState::Resident { ppn: replacement_ppn };
                Ok(self.inner)
            },
            PageSlotState::Dirty { ppn } => {
                if ppn != expected_ppn {
                    return Err(
                        PageSlotCompletionError::MismatchedFrame {
                            expected: expected_ppn,
                            current: ppn,
                        },
                    );
                }
                self.bump_generation();
                self.inner.state = PageSlotState::Dirty { ppn: replacement_ppn };
                Ok(self.inner)
            },
            _ => self.not_fetching(),
        }
    }

    /// Declare one dirty version clean, unless the page has been written or
    /// moved since the caller captured it.
    pub fn mark_clean_if_matches(
        &mut self,
        expected_generation: PageGeneration,
        expected_ppn: Ppn,
    ) -> (r: SlotResult)
        ensures
            r == old(self)@.cleaned(expected_generation, expected_ppn),
            final(self)@ == after(old(self)@, r),
    {
        if self.inner.generation != expected_generation {
            return self.generation_mismatch(expected_generation);
        }
        match self.inner.state {
            PageSlotState::Dirty { ppn } => {
                if ppn != expected_ppn {
                    return Err(
                        PageSlotCompletionError::MismatchedFrame {
                            expected: expected_ppn,
                            current: ppn,
                        },
                    );
                }
                self.inner.state = PageSlotState::Resident { ppn };
                Ok(self.inner)
            },
            _ => self.not_fetching(),
        }
    }

    /// Cancel a fetch if it is still the version that the caller owns.
    pub fn invalidate_if_generation(&mut self, expected_generation: PageGeneration) -> (r:
        SlotResult)
        ensures
            r == (if old(self)@.generation != expected_generation {
                old(self)@.stale(expected_generation)
            } else {
                Ok(old(self)@.renewed(PageSlotState::Empty))
            }),
            final(self)@ == after(old(self)@, r),
    {
        if self.inner.generation != expected_generation {
            return self.generation_mismatch(expected_generation);
        }
        Ok(self.invalidate())
    }

    fn generation_mismatch(&self, completed: PageGeneration) -> (r: SlotResult)
        ensures
            r == self@.stale(completed),
    {
        Err(
            PageSlotCompletionError::GenerationMismatch {
                current: self.inner.generation,
                completed,
            },
        )
    }

    fn not_fetching(&self) -> (r: SlotResult)
        ensures
            r == self@.not_fetching(),
    {
        Err(
            PageSlotCompletionError::NotFetching {
                state: self.inner.state,
                generation: self.inner.generation,
            },
        )
    }
}

impl Default for PageSlot {
    fn default() -> (slot: Self)
        ensures
            slot@ == PageSlotSnapshot::empty(),
    {
        PageSlot::new()
    }
}

/// A version that has passed is never acted on: completing a fetch, withdrawing,
/// replacing or cleaning under a generation that is not the current one is
/// refused.
pub proof fn law_stale_generation_is_refused(
    slot: PageSlotSnapshot,
    generation: PageGeneration,
    fetched: Result<Ppn, Errno>,
    ppn: Ppn,
    replacement: Ppn,
)
    requires
        slot.generation != generation,
    ensures
        slot.fetch_completed(generation, fetched) == slot.stale(generation),
        slot.withdrawn(generation, ppn) == slot.stale(generation),
        slot.replaced(generation, ppn, replacement) == slot.stale(generation),
        slot.cleaned(generation, ppn) == slot.stale(generation),
{
}

/// A writeback that completes while the page was written again leaves the newer
/// version dirty, whether it succeeded or failed.
pub proof fn law_redirty_survives_writeback(
    dirty: PageSlotSnapshot,
    ppn: Ppn,
    result: Result<(), Errno>,
)
    requires
        dirty.state == (PageSlotState::Dirty { ppn }),
    ensures
        ({
            let submitted = dirty.writeback_begun()->Ok_0;
            let rewritten = submitted.dirtied()->Ok_0;
            rewritten.writeback_completed(dirty.generation, result) == Ok::<
                PageSlotSnapshot,
                PageSlotCompletionError,
            >(rewritten.in_state(PageSlotState::Dirty { ppn }))
        }),
{
}

/// Giving up an unsubmitted writeback restores the dirty version exactly.
pub proof fn law_abort_undoes_begin_writeback(dirty: PageSlotSnapshot)
    requires
        dirty.state is Dirty,
    ensures
        dirty.writeback_begun() is Ok,
        dirty.writeback_begun()->Ok_0.writeback_aborted(dirty.generation) == Ok::<
            PageSlotSnapshot,
            PageSlotCompletionError,
        >(dirty),
{
}

/// A writeback completes once: after its completion the same completion is
/// refused.
pub proof fn law_writeback_completes_once(
    slot: PageSlotSnapshot,
    generation: PageGeneration,
    result: Result<(), Errno>,
    again: Result<(), Errno>,
)
    requires
        slot.writeback_completed(generation, result) is Ok,
    ensures
        slot.writeback_completed(generation, result)->Ok_0.writeback_completed(
            generation,
            again,
        ) is Err,
{
}

/// A fetch completes once: after its completion the same completion is refused.
pub proof fn law_fetch_completes_once(
    slot: PageSlotSnapshot,
    generation: PageGeneration,
    result: Result<Ppn, Errno>,
    again: Result<Ppn, Errno>,
)
    requires
        slot.fetch_completed(generation, result) is Ok,
    ensures
        slot.fetch_completed(generation, result)->Ok_0.fetch_completed(generation, again) is Err,
{
}

/// Every renewal yields a generation that is neither zero nor the one before.
pub proof fn law_renewal_changes_the_generation(slot: PageSlotSnapshot, state: PageSlotState)
    ensures
        slot.renewed(state).generation != slot.generation,
        slot.renewed(state).generation.0 != 0,
{
}

} // verus!
