//! Page-backed objects: sparse page caches, the per-page state machine behind
//! fetch and writeback, and the bookkeeping that keeps buffered I/O, direct
//! I/O, fsync and truncation coherent with one another.
//!
//! The library owns decisions and state only. Frames, filesystem calls, block
//! devices and wake-ups belong to the caller: it asks the library what to do,
//! does it, and hands the answer back as a plain value.

pub mod access_laws;
pub mod access_meaning;
pub mod access_run;
pub mod backend;
pub mod block_meaning;
pub mod block_runtime;
pub mod call_meaning;
pub mod completion;
pub mod container;
pub mod direct;
pub mod direct_io;
pub mod direct_meaning;
pub mod error_seq;
pub mod fetch;
pub mod fetch_meaning;
pub mod frame;
pub mod fs_page_backing;
pub mod fsync;
pub mod fsync_meaning;
pub mod fsync_run;
pub mod fsync_submission;
pub mod identity;
pub mod ids;
pub mod io;
pub mod lease;
pub mod lifecycle;
pub mod lifecycle_meaning;
pub mod materialize;
pub mod object_meaning;
pub mod page_access;
pub mod page_cache;
pub mod page_submission;
pub mod planned_fetch;
pub mod range;
pub mod range_history;
pub mod range_meaning;
pub mod reclaim;
pub mod reclaim_meaning;
pub mod request_meaning;
pub mod residency;
pub mod residency_meaning;
pub mod resident;
pub mod service;
pub mod service_meaning;
pub mod share;
pub mod slot;
pub mod slot_meaning;
pub mod sparse_index;
pub mod state_meaning;
pub mod step;
pub mod step_meaning;
pub mod submission_meaning;
pub mod transfer;
pub mod transfer_laws;
pub mod transfer_meaning;
pub mod writeback;
pub mod writeback_meaning;
