use page_backed::fsync_submission::{FsyncSubmission, FsyncSubmissionState};
use page_backed::ids::{Errno, PageIoRequestId};

#[test]
fn terminal_result_is_consumed_once() {
    let mut row = FsyncSubmission::new(PageIoRequestId::new(7));
    assert!(row.complete(Ok(())));
    assert!(!row.complete(Err(Errno::EIO)));
    assert_eq!(row.take(), Some(Ok(())));
    assert_eq!(row.take(), None);
}

#[test]
fn a_row_moves_from_queued_over_complete_to_consumed() {
    let mut row = FsyncSubmission::new(PageIoRequestId::new(9));
    assert_eq!(row.id(), PageIoRequestId::new(9));
    assert_eq!(row.state(), FsyncSubmissionState::Queued);
    assert_eq!(row.take(), None);
    assert!(row.complete(Err(Errno::EIO)));
    assert_eq!(row.state(), FsyncSubmissionState::Complete(Err(Errno::EIO)));
    assert_eq!(row.take(), Some(Err(Errno::EIO)));
    assert_eq!(row.state(), FsyncSubmissionState::Consumed);
    assert!(!row.complete(Ok(())));
}
