//! The flat error taxonomy of the write path. Each kind has a distinct
//! resolution policy, described on the variant.

use vstd::prelude::*;
use crate::types::{Assertion, Lock, LockModel, TimeStamp};

verus! {

/// An error produced while deciding or applying a mutation.
#[derive(Debug, PartialEq)]
pub enum Error {
    /// Another transaction holds the lock on this key. The caller may resolve
    /// it through the committed-record check before surfacing it.
    KeyIsLocked { key: Vec<u8>, lock: Lock },
    /// A committed write for the key exists at or after this transaction's
    /// start timestamp.
    WriteConflict {
        start_ts: TimeStamp,
        conflict_start_ts: TimeStamp,
        conflict_commit_ts: TimeStamp,
        key: Vec<u8>,
        primary: Vec<u8>,
    },
    /// The key already exists although the mutation demanded absence.
    AlreadyExist { key: Vec<u8>, existing_start_ts: TimeStamp },
    /// A client assertion about the key's prior existence did not hold.
    AssertionFailed {
        start_ts: TimeStamp,
        key: Vec<u8>,
        assertion: Assertion,
        existing_start_ts: TimeStamp,
        existing_commit_ts: TimeStamp,
    },
    /// A flush retried with a generation no newer than the installed lock's;
    /// absorbed silently as a stale retry, never surfaced to the caller.
    GenerationOutOfOrder { generation: u64, key: Vec<u8>, lock: Lock },
    /// Reachable only from pessimistic pre-checks, which the flush path
    /// always skips.
    PessimisticLockNotFound { start_ts: TimeStamp, key: Vec<u8> },
    /// Reachable only from the commit-timestamp ceiling logic, which the
    /// flush path never invokes.
    CommitTsTooLarge { min_commit_ts: TimeStamp },
    /// A commit found no matching lock to promote.
    TxnLockNotFound { start_ts: TimeStamp, commit_ts: TimeStamp, key: Vec<u8> },
    /// Wraps a request-level or lower-layer failure.
    Other(String),
}

/// Ghost model of an [`Error`].
pub ghost enum ErrorModel {
    KeyIsLocked { key: Seq<u8>, lock: LockModel },
    WriteConflict {
        start_ts: u64,
        conflict_start_ts: u64,
        conflict_commit_ts: u64,
        key: Seq<u8>,
        primary: Seq<u8>,
    },
    AlreadyExist { key: Seq<u8>, existing_start_ts: u64 },
    AssertionFailed {
        start_ts: u64,
        key: Seq<u8>,
        assertion: Assertion,
        existing_start_ts: u64,
        existing_commit_ts: u64,
    },
    GenerationOutOfOrder { generation: u64, key: Seq<u8>, lock: LockModel },
    PessimisticLockNotFound { start_ts: u64, key: Seq<u8> },
    CommitTsTooLarge { min_commit_ts: u64 },
    TxnLockNotFound { start_ts: u64, commit_ts: u64, key: Seq<u8> },
    Other(Seq<char>),
}

impl DeepView for Error {
    type V = ErrorModel;

    open spec fn deep_view(&self) -> ErrorModel {
        match self {
            Error::KeyIsLocked { key, lock } => ErrorModel::KeyIsLocked {
                key: key@,
                lock: lock.deep_view(),
            },
            Error::WriteConflict { start_ts, conflict_start_ts, conflict_commit_ts, key, primary } => ErrorModel::WriteConflict {
                start_ts: start_ts.0,
                conflict_start_ts: conflict_start_ts.0,
                conflict_commit_ts: conflict_commit_ts.0,
                key: key@,
                primary: primary@,
            },
            Error::AlreadyExist { key, existing_start_ts } => ErrorModel::AlreadyExist {
                key: key@,
                existing_start_ts: existing_start_ts.0,
            },
            Error::AssertionFailed { start_ts, key, assertion, existing_start_ts, existing_commit_ts } => ErrorModel::AssertionFailed {
                start_ts: start_ts.0,
                key: key@,
                assertion: *assertion,
                existing_start_ts: existing_start_ts.0,
                existing_commit_ts: existing_commit_ts.0,
            },
            Error::GenerationOutOfOrder { generation, key, lock } => ErrorModel::GenerationOutOfOrder {
                generation: *generation,
                key: key@,
                lock: lock.deep_view(),
            },
            Error::PessimisticLockNotFound { start_ts, key } => ErrorModel::PessimisticLockNotFound {
                start_ts: start_ts.0,
                key: key@,
            },
            Error::CommitTsTooLarge { min_commit_ts } => ErrorModel::CommitTsTooLarge {
                min_commit_ts: min_commit_ts.0,
            },
            Error::TxnLockNotFound { start_ts, commit_ts, key } => ErrorModel::TxnLockNotFound {
                start_ts: start_ts.0,
                commit_ts: commit_ts.0,
                key: key@,
            },
            Error::Other(msg) => ErrorModel::Other(msg@),
        }
    }
}

} // verus!
