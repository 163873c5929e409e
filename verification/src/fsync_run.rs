//! An fsync that asks for one filesystem call at a time.

use crate::container::{ContainerView, PageContainer};
use crate::ids::{Errno, PAGE_BYTES};
use crate::lifecycle::{
    planned_sync, saturating_count, stop_at, stopped_by, synced, DirtyPage, FsCall, FsReply,
};
use crate::step::{PageProgress, StepOutcome};
use crate::writeback::FileFsyncFrontierAdvance;
use vstd::prelude::*;

verus! {

/// The call that an fsync waits for.
#[derive(Clone, Copy, Debug, PartialEq, Eq, Structural)]
pub enum FsyncPhase {
    /// The write of the next captured page.
    Flush,
    /// The correction of the stored size.
    Correct,
    Sync,
}

/// An fsync under way.
#[derive(Debug)]
pub struct FsyncRun {
    /// The dirty pages as they were captured at the start.
    pub dirty: Vec<DirtyPage>,
    /// The first of them that is not written.
    pub next: usize,
    /// How many were written.
    pub flushed: u32,
    pub phase: FsyncPhase,
}

/// How an fsync goes on.
#[derive(Debug)]
pub enum FsyncNext {
    /// Make `call` and resume `run` with the reply.
    Call { call: FsCall, run: FsyncRun },
    Ended(StepOutcome<(), PageProgress>),
}

/// An fsync under way, as a value.
#[verifier::ext_equal]
pub struct FsyncRunView {
    pub dirty: Seq<DirtyPage>,
    pub next: nat,
    pub flushed: u32,
    pub phase: FsyncPhase,
}

impl View for FsyncRun {
    type V = FsyncRunView;

    open spec fn view(&self) -> FsyncRunView {
        FsyncRunView {
            dirty: self.dirty@,
            next: self.next as nat,
            flushed: self.flushed,
            phase: self.phase,
        }
    }
}

impl FsyncRunView {
    /// Whether the run stands where its phase says.
    pub open spec fn wf(self) -> bool {
        self.phase is Flush <==> self.next < self.dirty.len()
    }
}

/// How an fsync goes on, as a value.
pub enum FsyncNextView {
    Call { call: FsCall, run: FsyncRunView },
    Ended(StepOutcome<(), PageProgress>),
}

impl View for FsyncNext {
    type V = FsyncNextView;

    open spec fn view(&self) -> FsyncNextView {
        match *self {
            FsyncNext::Call { call, run } => FsyncNextView::Call { call, run: run@ },
            FsyncNext::Ended(outcome) => FsyncNextView::Ended(outcome),
        }
    }
}

impl ContainerView {
    /// What an fsync asks for once the first `next` captured pages are written.
    pub open spec fn fsync_from(self, dirty: Seq<DirtyPage>, next: nat, flushed: u32) -> FsyncNextView {
        if next < dirty.len() {
            let one = dirty[next as int];
            if one.page.0 * PAGE_BYTES > u64::MAX {
                FsyncNextView::Ended(StepOutcome::Error(Errno::EINVAL))
            } else {
                FsyncNextView::Call {
                    call: FsCall::FlushPage {
                        object: self.object(),
                        offset: (one.page.0 * PAGE_BYTES) as u64,
                        ppn: one.ppn,
                    },
                    run: FsyncRunView { dirty, next, flushed, phase: FsyncPhase::Flush },
                }
            }
        } else if self.corrects_eof() {
            FsyncNextView::Call {
                call: self.size_call(),
                run: FsyncRunView { dirty, next, flushed, phase: FsyncPhase::Correct },
            }
        } else {
            FsyncNextView::Call {
                call: FsCall::SyncFile { object: self.object() },
                run: FsyncRunView { dirty, next, flushed, phase: FsyncPhase::Sync },
            }
        }
    }

    /// What an fsync asks for first. There is nothing to do for containers
    /// that are no files.
    pub open spec fn fsync_begun(self) -> FsyncNextView {
        if self.kind is File {
            self.fsync_from(self.flush_list(), 0, 0)
        } else {
            FsyncNextView::Ended(StepOutcome::Done(()))
        }
    }

    /// What an fsync through a backend planner asks for when the writeback of
    /// its frontier stands at `advance`.
    pub open spec fn planned_fsync_begun(self, advance: Result<FileFsyncFrontierAdvance, Errno>) -> FsyncNextView {
        match advance {
            Err(errno) => FsyncNextView::Ended(StepOutcome::Error(errno)),
            Ok(FileFsyncFrontierAdvance::Error(errno)) => FsyncNextView::Ended(
                StepOutcome::Error(errno),
            ),
            Ok(FileFsyncFrontierAdvance::Complete) => FsyncNextView::Call {
                call: FsCall::SyncFile { object: self.object() },
                run: FsyncRunView {
                    dirty: Seq::empty(),
                    next: 0,
                    flushed: 0,
                    phase: FsyncPhase::Sync,
                },
            },
            Ok(_) => FsyncNextView::Ended(StepOutcome::Continue { progress: PageProgress(0) }),
        }
    }

    /// Outcome of the reply that `run` waits for.
    pub open spec fn fsync_resumed(self, run: FsyncRunView, reply: FsReply) -> (
        Self,
        FsyncNextView,
    ) {
        match run.phase {
            FsyncPhase::Flush => match stopped_by::<()>(reply, PageProgress(run.flushed)) {
                Some(outcome) => (self, FsyncNextView::Ended(outcome)),
                None => {
                    let written = self.page_flushed(run.dirty[run.next as int]);
                    (
                        written,
                        written.fsync_from(
                            run.dirty,
                            run.next + 1,
                            saturating_count(run.flushed),
                        ),
                    )
                },
            },
            FsyncPhase::Correct => {
                let told = self.size_told(reply);
                match stopped_by::<()>(reply, PageProgress(0)) {
                    Some(outcome) => (told, FsyncNextView::Ended(outcome)),
                    None => (
                        told,
                        FsyncNextView::Call {
                            call: FsCall::SyncFile { object: self.object() },
                            run: FsyncRunView { phase: FsyncPhase::Sync, ..run },
                        },
                    ),
                }
            },
            FsyncPhase::Sync => (self, FsyncNextView::Ended(synced(reply, run.flushed))),
        }
    }

    /// Outcome of an fsync that is resumed until it ends, with these replies to
    /// the flushes, the correction and the sync. `steps` bounds the replies.
    pub open spec fn fsync_driven(
        self,
        at: FsyncNextView,
        flushes: Seq<FsReply>,
        truncate: FsReply,
        sync: FsReply,
        steps: nat,
    ) -> (Self, FsyncNextView)
        decreases steps,
    {
        match at {
            FsyncNextView::Call { call, run } if steps > 0 => {
                let reply = match run.phase {
                    FsyncPhase::Flush => flushes[run.next as int],
                    FsyncPhase::Correct => truncate,
                    FsyncPhase::Sync => sync,
                };
                let (after, next) = self.fsync_resumed(run, reply);
                after.fsync_driven(next, flushes, truncate, sync, (steps - 1) as nat)
            },
            _ => (self, at),
        }
    }
}

/// What an fsync asks for once the pages before `next` are written.
fn next_fsync_call(pc: &PageContainer, dirty: Vec<DirtyPage>, next: usize, flushed: u32) -> (at:
    FsyncNext)
    requires
        pc.wf(),
        pc@.kind is File,
        next <= dirty@.len(),
    ensures
        at@ == pc@.fsync_from(dirty@, next as nat, flushed),
        at@ matches FsyncNextView::Call { run, .. } ==> run.wf(),
{
    let object = match pc.backing_object() {
        Some(object) => object,
        None => {
            return FsyncNext::Ended(StepOutcome::Done(()));
        },
    };
    if next < dirty.len() {
        let one = dirty[next];
        return match one.page.0.checked_mul(PAGE_BYTES) {
            Some(offset) => FsyncNext::Call {
                call: FsCall::FlushPage { object, offset, ppn: one.ppn },
                run: FsyncRun { dirty, next, flushed, phase: FsyncPhase::Flush },
            },
            None => FsyncNext::Ended(StepOutcome::Error(Errno::EINVAL)),
        };
    }
    match pc.eof_correction() {
        Some(call) => FsyncNext::Call {
            call,
            run: FsyncRun { dirty, next, flushed, phase: FsyncPhase::Correct },
        },
        None => FsyncNext::Call {
            call: FsCall::SyncFile { object },
            run: FsyncRun { dirty, next, flushed, phase: FsyncPhase::Sync },
        },
    }
}

/// Start an fsync with the pages that are dirty now.
pub fn begin_fsync(pc: &PageContainer) -> (at: FsyncNext)
    requires
        pc.wf(),
    ensures
        at@ == pc@.fsync_begun(),
        at@ matches FsyncNextView::Call { run, .. } ==> run.wf(),
{
    if !pc.is_file() {
        return FsyncNext::Ended(StepOutcome::Done(()));
    }
    next_fsync_call(pc, pc.dirty_pages_snapshot(), 0, 0)
}

/// Start the end of an fsync through a backend planner. `advance` is how far
/// the writeback of its frontier has come; only a complete one is synced.
pub fn begin_planned_fsync(
    pc: &PageContainer,
    advance: Result<FileFsyncFrontierAdvance, Errno>,
) -> (at: FsyncNext)
    requires
        pc.wf(),
        pc@.kind is File,
    ensures
        at@ == pc@.planned_fsync_begun(advance),
        at@ matches FsyncNextView::Call { run, .. } ==> run.wf(),
{
    match advance {
        Err(errno) => FsyncNext::Ended(StepOutcome::Error(errno)),
        Ok(FileFsyncFrontierAdvance::Error(errno)) => FsyncNext::Ended(StepOutcome::Error(errno)),
        Ok(FileFsyncFrontierAdvance::Complete) => match pc.backing_object() {
            Some(object) => {
                let run = FsyncRun {
                    dirty: Vec::new(),
                    next: 0,
                    flushed: 0,
                    phase: FsyncPhase::Sync,
                };
                assert(run@.dirty =~= Seq::<DirtyPage>::empty());
                FsyncNext::Call { call: FsCall::SyncFile { object }, run }
            },
            None => FsyncNext::Ended(StepOutcome::Done(())),
        },
        Ok(_) => FsyncNext::Ended(StepOutcome::Continue { progress: PageProgress::new(0) }),
    }
}

/// Go on with an fsync after the reply to the call that it has asked for.
pub fn resume_fsync(pc: &mut PageContainer, run: FsyncRun, reply: &FsReply) -> (at: FsyncNext)
    requires
        old(pc).wf(),
        old(pc)@.kind is File,
        run@.wf(),
    ensures
        final(pc).wf(),
        (final(pc)@, at@) == old(pc)@.fsync_resumed(run@, *reply),
        at@ matches FsyncNextView::Call { run, .. } ==> run.wf(),
{
    let FsyncRun { dirty, next, flushed, phase } = run;
    match phase {
        FsyncPhase::Flush => {
            match stop_at(reply, PageProgress::new(flushed)) {
                Some(outcome) => FsyncNext::Ended(outcome),
                None => {
                    pc.finish_page_flush(dirty[next]);
                    assert(dirty.len() == dirty@.len());
                    let count: u32 = if flushed < u32::MAX {
                        flushed + 1
                    } else {
                        flushed
                    };
                    next_fsync_call(pc, dirty, next + 1, count)
                },
            }
        },
        FsyncPhase::Correct => {
            pc.finish_size_correction(reply);
            match stop_at(reply, PageProgress::new(0)) {
                Some(outcome) => FsyncNext::Ended(outcome),
                None => match pc.backing_object() {
                    Some(object) => FsyncNext::Call {
                        call: FsCall::SyncFile { object },
                        run: FsyncRun { dirty, next, flushed, phase: FsyncPhase::Sync },
                    },
                    None => FsyncNext::Ended(StepOutcome::Done(())),
                },
            }
        },
        FsyncPhase::Sync => FsyncNext::Ended(
            match stop_at(reply, PageProgress::new(flushed)) {
                Some(outcome) => outcome,
                None => StepOutcome::Done(()),
            },
        ),
    }
}

proof fn lemma_driven_from(
    view: ContainerView,
    dirty: Seq<DirtyPage>,
    next: nat,
    flushed: u32,
    made: Seq<FsCall>,
    flushes: Seq<FsReply>,
    truncate: FsReply,
    sync: FsReply,
    steps: nat,
)
    requires
        view.kind is File,
        next <= dirty.len(),
        dirty.len() <= flushes.len(),
        steps >= dirty.len() - next + 2,
    ensures
        ({
            let flush = view.flush_from(dirty, flushes, next, flushed, made);
            let (end, at) = view.fsync_driven(
                view.fsync_from(dirty, next, flushed),
                flushes,
                truncate,
                sync,
                steps,
            );
            match flush.outcome {
                StepOutcome::Done(pages) => {
                    let asked = flush.view.corrects_eof();
                    let told = if asked {
                        flush.view.size_told(truncate)
                    } else {
                        flush.view
                    };
                    &&& end == told
                    &&& at == match stopped_by::<()>(truncate, PageProgress(0)) {
                        Some(outcome) if asked => FsyncNextView::Ended(outcome),
                        _ => FsyncNextView::Ended(synced(sync, pages)),
                    }
                },
                StepOutcome::Continue { progress } => {
                    &&& end == flush.view
                    &&& at == FsyncNextView::Ended(StepOutcome::Continue { progress })
                },
                StepOutcome::Yield { progress, shape } => {
                    &&& end == flush.view
                    &&& at == FsyncNextView::Ended(StepOutcome::Yield { progress, shape })
                },
                StepOutcome::Error(errno) => {
                    &&& end == flush.view
                    &&& at == FsyncNextView::Ended(StepOutcome::Error(errno))
                },
            }
        }),
    decreases dirty.len() - next,
{
    reveal_with_fuel(ContainerView::fsync_driven, 4);
    if next < dirty.len() {
        let one = dirty[next as int];
        if one.page.0 * PAGE_BYTES <= u64::MAX {
            let call = FsCall::FlushPage {
                object: view.object(),
                offset: (one.page.0 * PAGE_BYTES) as u64,
                ppn: one.ppn,
            };
            lemma_driven_from(
                view.page_flushed(one),
                dirty,
                next + 1,
                saturating_count(flushed),
                made.push(call),
                flushes,
                truncate,
                sync,
                (steps - 1) as nat,
            );
        }
    }
}

/// An fsync that makes its calls one at a time ends as one that knows every
/// reply beforehand: with the same container and the same outcome.
pub proof fn law_fsync_run_is_an_fsync(
    view: ContainerView,
    flushes: Seq<FsReply>,
    truncate: FsReply,
    sync: FsReply,
)
    requires
        view.flush_list().len() <= flushes.len(),
    ensures
        ({
            let step = view.fsync_step(flushes, truncate, sync);
            view.fsync_driven(
                view.fsync_begun(),
                flushes,
                truncate,
                sync,
                view.flush_list().len() + 2,
            ) == (step.view, FsyncNextView::Ended(step.outcome))
        }),
{
    if view.kind is File {
        lemma_driven_from(
            view,
            view.flush_list(),
            0,
            0,
            Seq::empty(),
            flushes,
            truncate,
            sync,
            view.flush_list().len() + 2,
        );
    }
}

/// An fsync through a backend planner that makes its sync only when it is due
/// ends as one that knows the reply beforehand.
pub proof fn law_planned_fsync_run_is_an_fsync(
    view: ContainerView,
    advance: Result<FileFsyncFrontierAdvance, Errno>,
    truncate: FsReply,
    sync: FsReply,
)
    ensures
        view.fsync_driven(view.planned_fsync_begun(advance), Seq::empty(), truncate, sync, 1) == (
            view,
            FsyncNextView::Ended(planned_sync(advance, sync)),
        ),
{
    reveal_with_fuel(ContainerView::fsync_driven, 2);
}

} // verus!
