use page_backed::block_runtime::{
    BackendSubmitOutcome, BioPlan, BlockDeviceCompletion, BlockOp, BlockServiceNext,
    BlockSubmissionHandle, LbaRange, MergedBio, PageL6Action, PageL6SubmitFailure, QueueError,
    SubmitOutcome, UnknownTag,
};
use page_backed::ids::{Errno, IoDataLeaseId, PageGeneration, PageIoRequestId};
use page_backed::io::{
    BioVec, PageIoFlags, PageIoOp, PageIoPriority, PageIoRange, PageIoRequest,
};

fn read_plan(lba: u64) -> BioPlan {
    BioPlan {
        device: 1,
        op: BlockOp::Read,
        range: LbaRange { start: lba, count: 1 },
        vecs: vec![BioVec::new(0x1000 + lba, 0, 512)],
    }
}

fn page_request(id: u64) -> PageIoRequest {
    PageIoRequest::new(
        PageIoRequestId::new(id),
        PageIoRange::new(id, 1),
        PageIoOp::Writeback,
        PageIoPriority::Demand,
        PageIoFlags::Demand,
        Some(PageGeneration::new(id)),
    )
}

#[test]
fn direct_completion_route_is_removed_before_pagecontainer_terminalization() {
    let mut manager = BlockSubmissionHandle::new(4, 2);
    let first = IoDataLeaseId::new(11);
    let replacement = IoDataLeaseId::new(12);
    manager
        .submit_direct(first, read_plan(8), None)
        .expect("first direct submission");
    manager
        .submit_direct(replacement, read_plan(32), None)
        .expect("replacement direct submission");

    let driven = manager.drive(2);
    assert_eq!(driven.dispatches.len(), 2);
    let first_tag = driven.dispatches[0].tag;
    let replacement_tag = driven.dispatches[1].tag;

    let first_completion = manager
        .complete_receipt(BlockDeviceCompletion { tag: first_tag, result: Ok(()) })
        .expect("first tagged completion");
    assert_eq!(first_completion.direct, vec![(first, Ok(()))]);
    assert_eq!(manager.direct_tracker_len(), 1);

    assert!(manager
        .complete_receipt(BlockDeviceCompletion { tag: first_tag, result: Ok(()) })
        .is_err());
    assert_eq!(manager.direct_tracker_len(), 1);

    let replacement_completion = manager
        .complete_receipt(BlockDeviceCompletion { tag: replacement_tag, result: Ok(()) })
        .expect("replacement tagged completion");
    assert_eq!(replacement_completion.direct, vec![(replacement, Ok(()))]);
    assert_eq!(manager.direct_tracker_len(), 0);
}

#[test]
fn page_route_commit_makes_l6_dispatchable_and_stale_tag_cannot_consume_replacement() {
    let mut manager = BlockSubmissionHandle::new(4, 1);
    let first_request = page_request(21);
    let receipt = manager.submit_page_action(PageL6Action {
        id: first_request.id,
        bios: vec![read_plan(64)],
        merges: vec![],
    });

    assert!(manager.drive(1).dispatches.is_empty());

    assert!(receipt.failure.is_none());
    manager.record_page_outcome(&BackendSubmitOutcome::BlockBiosQueued {
        request: first_request,
        submitted: receipt.submitted,
    });
    let first_dispatch = manager
        .drive(1)
        .dispatches
        .into_iter()
        .next()
        .expect("route commit releases the BIO");
    let first_tag = first_dispatch.tag;

    let first_completion = manager
        .complete_receipt(BlockDeviceCompletion { tag: first_tag, result: Ok(()) })
        .expect("first completion");
    assert_eq!(first_completion.page.len(), 1);
    assert_eq!(first_completion.page[0].request, first_request);

    let replacement_request = page_request(22);
    let replacement_receipt = manager.submit_page_action(PageL6Action {
        id: replacement_request.id,
        bios: vec![read_plan(96)],
        merges: vec![],
    });
    manager.record_page_outcome(&BackendSubmitOutcome::BlockBiosQueued {
        request: replacement_request,
        submitted: replacement_receipt.submitted,
    });
    assert_eq!(manager.tracker_len(), 1);

    assert!(manager
        .complete_receipt(BlockDeviceCompletion { tag: first_tag, result: Ok(()) })
        .is_err());
    assert_eq!(manager.tracker_len(), 1);

    let replacement_dispatch = manager
        .drive(1)
        .dispatches
        .into_iter()
        .next()
        .expect("replacement dispatch");
    let replacement_completion = manager
        .complete_receipt(BlockDeviceCompletion { tag: replacement_dispatch.tag, result: Ok(()) })
        .expect("replacement completion");
    assert_eq!(replacement_completion.page.len(), 1);
    assert_eq!(replacement_completion.page[0].request, replacement_request);
    assert_eq!(manager.tracker_len(), 0);
}

#[test]
fn partial_page_receipt_commits_only_accepted_l6_routes() {
    let mut manager = BlockSubmissionHandle::new(1, 1);
    let request = page_request(31);
    let receipt = manager.submit_page_action(PageL6Action {
        id: request.id,
        bios: vec![read_plan(128), read_plan(192)],
        merges: vec![],
    });
    assert_eq!(receipt.submitted.len(), 1);
    assert_eq!(
        receipt.failure,
        Some(PageL6SubmitFailure { failed_index: 1, error: QueueError::Full })
    );
    assert!(manager.drive(1).dispatches.is_empty());

    manager.record_page_outcome(&BackendSubmitOutcome::BlockBiosQueued {
        request,
        submitted: receipt.submitted,
    });

    let dispatch = manager.drive(2).dispatches;
    assert_eq!(dispatch.len(), 1);
    let completion = manager
        .complete_receipt(BlockDeviceCompletion { tag: dispatch[0].tag, result: Ok(()) })
        .expect("accepted prefix completion");
    assert_eq!(completion.page.len(), 1);
    assert_eq!(completion.page[0].request, request);
    assert_eq!(manager.tracker_len(), 0);
    assert!(manager.drive(1).dispatches.is_empty());
}

#[test]
fn device_errors_reach_every_owner_of_a_transfer() {
    let mut manager = BlockSubmissionHandle::new(4, 4);
    let lease = IoDataLeaseId::new(5);
    manager.submit_direct(lease, read_plan(1), None).expect("queue");
    let tag = manager.drive(4).dispatches[0].tag;
    let receipt = manager
        .complete_receipt(BlockDeviceCompletion { tag, result: Err(Errno::EIO) })
        .expect("tag in flight");
    assert_eq!(receipt.direct, vec![(lease, Err(Errno::EIO))]);
    assert_eq!(receipt.block.result, Err(Errno::EIO));
    assert_eq!(
        manager
            .complete_receipt(BlockDeviceCompletion { tag, result: Ok(()) })
            .expect_err("the tag has come back"),
        UnknownTag(tag)
    );
}

#[test]
fn an_empty_transfer_is_refused_and_the_device_depth_is_kept() {
    let mut manager = BlockSubmissionHandle::new(4, 1);
    let empty = BioPlan {
        device: 1,
        op: BlockOp::Write,
        range: LbaRange { start: 9, count: 0 },
        vecs: vec![],
    };
    assert_eq!(
        manager.submit_direct(IoDataLeaseId::new(1), empty, None),
        Err(QueueError::EmptyRange)
    );
    assert_eq!(manager.service_next(), BlockServiceNext::Sleeping);
    manager.submit_direct(IoDataLeaseId::new(1), read_plan(1), None).expect("queue");
    manager.submit_direct(IoDataLeaseId::new(2), read_plan(2), None).expect("queue");
    assert_eq!(manager.service_next(), BlockServiceNext::Runnable);
    let driven = manager.drive(8);
    assert_eq!(driven.dispatches.len(), 1);
    assert_eq!(driven.next, BlockServiceNext::WaitingForCompletion);
    assert!(manager.has_in_flight());
    let snapshot = manager.diagnostic_snapshot();
    assert_eq!(snapshot.queued, 1);
    assert_eq!(snapshot.dispatch_blocked, 0);
    assert_eq!(snapshot.direct_routes, 2);
    assert_eq!(snapshot.depth_limit, 1);
    assert_eq!(snapshot.tags_in_flight, 1);
}

fn merged_plan(lba: u64, count: u64) -> BioPlan {
    BioPlan {
        device: 1,
        op: BlockOp::Read,
        range: LbaRange { start: lba, count },
        vecs: (lba..lba + count).map(|at| BioVec::new(0x1000 + at, 0, 512)).collect(),
    }
}

#[test]
fn a_merged_transfer_ends_with_the_one_that_it_joined() {
    let mut manager = BlockSubmissionHandle::new(1, 1);
    let first = page_request(41);
    let receipt = manager.submit_page_action(PageL6Action {
        id: first.id,
        bios: vec![read_plan(8)],
        merges: vec![],
    });
    let id = match receipt.submitted[0] {
        SubmitOutcome::Queued(id) => id,
        other => panic!("nothing to merge with: {other:?}"),
    };
    manager.record_page_outcome(&BackendSubmitOutcome::BlockBiosQueued {
        request: first,
        submitted: receipt.submitted,
    });

    let second = page_request(42);
    let receipt = manager.submit_page_action(PageL6Action {
        id: second.id,
        bios: vec![read_plan(9)],
        merges: vec![Some(MergedBio { id, plan: merged_plan(8, 2) })],
    });
    assert_eq!(receipt.submitted, vec![SubmitOutcome::Merged(id)]);
    assert!(receipt.failure.is_none(), "a merged transfer takes no room");
    assert_eq!(manager.queue_len(), 1);
    assert!(manager.drive(1).dispatches.is_empty(), "the route is not recorded yet");
    manager.record_page_outcome(&BackendSubmitOutcome::BlockBiosQueued {
        request: second,
        submitted: receipt.submitted,
    });
    let lease = IoDataLeaseId::new(6);
    assert_eq!(
        manager.submit_direct(
            lease,
            read_plan(10),
            Some(MergedBio { id, plan: merged_plan(8, 3) })
        ),
        Ok(SubmitOutcome::Merged(id))
    );

    let driven = manager.drive(4);
    assert_eq!(driven.dispatches.len(), 1);
    assert_eq!(driven.dispatches[0].plan.range, LbaRange { start: 8, count: 3 });
    let receipt = manager
        .complete_receipt(BlockDeviceCompletion { tag: driven.dispatches[0].tag, result: Ok(()) })
        .expect("tag in flight");
    let requests: Vec<PageIoRequest> = receipt.page.iter().map(|page| page.request).collect();
    assert_eq!(requests, vec![first, second]);
    assert_eq!(receipt.direct, vec![(lease, Ok(()))]);
}

#[test]
fn a_transfer_that_is_gone_is_not_merged_with() {
    let mut manager = BlockSubmissionHandle::new(4, 1);
    let id = match manager.submit_direct(IoDataLeaseId::new(1), read_plan(8), None) {
        Ok(SubmitOutcome::Queued(id)) => id,
        other => panic!("queued: {other:?}"),
    };
    assert_eq!(manager.drive(1).dispatches.len(), 1);
    let late = Some(MergedBio { id, plan: merged_plan(8, 2) });
    let outcome = manager.submit_direct(IoDataLeaseId::new(2), read_plan(9), late);
    assert!(matches!(outcome, Ok(SubmitOutcome::Queued(other)) if other != id));
}
