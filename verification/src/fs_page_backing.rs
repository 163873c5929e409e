//! What a filesystem offers to page containers.

use crate::container::PageContainer;
use crate::frame::Frame;
use crate::ids::{Errno, FsObjectId, PAGE_BYTES};
use crate::lifecycle::FsReply;
use crate::step::{NoProgress, StepOutcome};
use vstd::prelude::*;

verus! {

#[derive(Clone, Copy, Debug, PartialEq, Eq, Structural)]
pub struct FilesystemStats {
    pub block_size: u64,
    pub total_blocks: u64,
    pub free_blocks: u64,
    pub available_blocks: u64,
    pub total_inodes: u64,
    pub free_inodes: u64,
    pub max_name_len: u64,
}

/// Outcome of writing a run of `count` pages one by one, from the page with
/// index `i` at `offset` on, when the filesystem answers `replies`. There is
/// none while more answers are needed.
pub open spec fn replayed(offset: u64, count: nat, replies: Seq<FsReply>, i: nat) -> Option<FsReply>
    decreases count - i,
{
    if i >= count {
        Some(StepOutcome::Done(()))
    } else if i >= replies.len() {
        None
    } else {
        match replies[i as int] {
            StepOutcome::Done(()) => if offset + PAGE_BYTES > u64::MAX {
                Some(StepOutcome::Error(Errno::EINVAL))
            } else {
                replayed((offset + PAGE_BYTES) as u64, count, replies, i + 1)
            },
            other => Some(other),
        }
    }
}

/// Where the page after the one at `offset` starts, once that is written, or
/// how the run ends.
pub fn after_flush(offset: u64, reply: FsReply) -> (next: Result<u64, FsReply>)
    ensures
        next == match reply {
            StepOutcome::Done(()) => if offset + PAGE_BYTES > u64::MAX {
                Err(StepOutcome::Error(Errno::EINVAL))
            } else {
                Ok((offset + PAGE_BYTES) as u64)
            },
            other => Err::<u64, FsReply>(other),
        },
{
    match reply {
        StepOutcome::Done(()) => match offset.checked_add(PAGE_BYTES) {
            Some(next) => Ok(next),
            None => Err(StepOutcome::Error(Errno::EINVAL)),
        },
        other => Err(other),
    }
}

/// The page operations of a filesystem. Each works on one page or one object,
/// so that none reports partial progress.
pub trait FsPageBacking {
    /// Whether dirty pages belong to the asynchronous writeback of the mount.
    /// Having a backend planner, which may serve reads alone, does not tell.
    fn uses_async_writeback(&self) -> (uses: bool)
        default_ensures
            !uses,
    {
        false
    }

    /// Most pages that `flush_pages` takes as one transaction.
    fn flush_batch_limit(&self) -> (limit: usize)
        default_ensures
            limit == 1,
    {
        1
    }

    fn filesystem_stats(&self) -> (stats: StepOutcome<FilesystemStats, NoProgress>)
        default_ensures
            stats == StepOutcome::<FilesystemStats, NoProgress>::Error(Errno::ENOSYS),
    {
        StepOutcome::Error(Errno::ENOSYS)
    }

    fn fetch_page(&self, object: FsObjectId, offset: u64) -> StepOutcome<Frame, NoProgress>;

    fn flush_page(&self, object: FsObjectId, offset: u64, frame: &Frame) -> FsReply;

    /// Write a run of consecutive pages. Unless the filesystem does better,
    /// they are written one by one, each at its own offset, up to the first
    /// that is not done.
    fn flush_pages(&self, object: FsObjectId, first_offset: u64, frames: &Vec<Frame>) -> (reply:
        FsReply)
        default_ensures
            exists|replies: Seq<FsReply>|
                {
                    &&& #[trigger] replayed(first_offset, frames@.len(), replies, 0) == Some(reply)
                    &&& replies.len() <= frames@.len()
                    &&& forall|j: int|
                        0 <= j < replies.len() ==> call_ensures(
                            Self::flush_page,
                            (
                                self,
                                object,
                                (first_offset + j * PAGE_BYTES) as u64,
                                &frames@[j],
                            ),
                            #[trigger] replies[j],
                        )
                },
    {
        let mut offset: u64 = first_offset;
        let mut i: usize = 0;
        let ghost mut replies: Seq<FsReply> = Seq::empty();
        while i < frames.len()
            invariant
                i <= frames@.len(),
                replies.len() == i,
                offset == first_offset + i * PAGE_BYTES,
                forall|j: int|
                    0 <= j < i ==> call_ensures(
                        Self::flush_page,
                        (self, object, (first_offset + j * PAGE_BYTES) as u64, &frames@[j]),
                        #[trigger] replies[j],
                    ),
                forall|more: Seq<FsReply>|
                    #![trigger replayed(first_offset, frames@.len(), replies + more, 0)]
                    replayed(first_offset, frames@.len(), replies + more, 0) == replayed(
                        offset,
                        frames@.len(),
                        replies + more,
                        i as nat,
                    ),
            decreases frames@.len() - i,
        {
            let reply = self.flush_page(object, offset, &frames[i]);
            let ghost given = reply;
            let ghost before = replies;
            proof {
                replies = replies.push(given);
                assert forall|more: Seq<FsReply>| #[trigger]
                    (replies + more) == before + (seq![given] + more) by {
                    assert(replies + more =~= before + (seq![given] + more));
                }
            }
            match after_flush(offset, reply) {
                Ok(next) => {
                    proof {
                        assert forall|more: Seq<FsReply>|
                            #![trigger replayed(first_offset, frames@.len(), replies + more, 0)]
                            replayed(first_offset, frames@.len(), replies + more, 0) == replayed(
                            next,
                            frames@.len(),
                            replies + more,
                            (i + 1) as nat,
                        ) by {
                            assert(replies + more == before + (seq![given] + more));
                            assert(replayed(
                                first_offset,
                                frames@.len(),
                                before + (seq![given] + more),
                                0,
                            ) == replayed(
                                offset,
                                frames@.len(),
                                before + (seq![given] + more),
                                i as nat,
                            ));
                            assert((replies + more)[i as int] == given);
                        }
                    }
                    offset = next;
                },
                Err(end) => {
                    proof {
                        let more = Seq::<FsReply>::empty();
                        assert(replies + more =~= replies);
                        assert(replies + more == before + (seq![given] + more));
                        assert(replayed(
                            first_offset,
                            frames@.len(),
                            before + (seq![given] + more),
                            0,
                        ) == replayed(
                            offset,
                            frames@.len(),
                            before + (seq![given] + more),
                            i as nat,
                        ));
                        assert(replies[i as int] == given);
                        assert(replayed(first_offset, frames@.len(), replies, 0) == Some(end));
                    }
                    return end;
                },
            }
            i += 1;
        }
        proof {
            let more = Seq::<FsReply>::empty();
            assert(replies + more =~= replies);
            assert(replayed(first_offset, frames@.len(), replies + more, 0) == Some(
                StepOutcome::<(), NoProgress>::Done(()),
            ));
        }
        StepOutcome::Done(())
    }

    fn truncate(&self, object: FsObjectId, new_size: u64) -> FsReply;

    fn fsync_file(&self, object: FsObjectId) -> FsReply;

    /// Admit a buffered write before its pages become dirty.
    fn prepare_write_range(&self, _object: FsObjectId, _offset: u64, _len: usize) -> (reply: FsReply)
        default_ensures
            reply == StepOutcome::<(), NoProgress>::Done(()),
    {
        StepOutcome::Done(())
    }

    /// Make the whole filesystem durable, whose root object is `root`.
    fn sync_filesystem(&self, root: FsObjectId) -> (reply: FsReply)
        default_ensures
            call_ensures(Self::fsync_file, (self, root), reply),
    {
        self.fsync_file(root)
    }

    fn fallocate(&self, _object: FsObjectId, _new_size: u64) -> (reply: FsReply)
        default_ensures
            reply == StepOutcome::<(), NoProgress>::Done(()),
    {
        StepOutcome::Done(())
    }

    /// Whether frames can be shared with `_other`.
    fn supports_reflink(&self, _other: &PageContainer) -> (supports: bool)
        default_ensures
            !supports,
    {
        false
    }
}

} // verus!
