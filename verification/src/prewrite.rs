//! The single-key prewrite decision: given one mutation, the transaction's
//! context and a snapshot, either stage a provisional lock or report exactly
//! which conflict forbids it.
//!
//! [`prewrite_outcome`] is the complete mathematical statement of the
//! decision table; [`prewrite_with_generation`] is the executable engine,
//! proved to return precisely that outcome.

use vstd::prelude::*;
use crate::errors::{Error, ErrorModel};
use crate::store::{
    committed_record, resolve_read, Modify, ModifyModel, SnapshotReader, StoreModel,
};
use crate::types::{
    clone_bytes, clone_lock, spec_prev_ts, Assertion, AssertionLevel, Lock, LockModel, LockType,
    Mutation, MutationModel, TimeStamp, TxnKind, Write, WriteModel, WriteType,
};

verus! {

/// The per-request transaction context handed to the prewrite engine.
#[derive(Debug)]
pub struct TransactionProperties {
    pub start_ts: TimeStamp,
    /// The transaction's primary key, recorded in every staged lock.
    pub primary: Vec<u8>,
    pub lock_ttl: u64,
    /// Floor for the eventual commit timestamp, supplied by the external
    /// concurrency manager.
    pub min_commit_ts: TimeStamp,
    pub assertion_level: AssertionLevel,
}

/// Ghost model of [`TransactionProperties`].
pub ghost struct PropsModel {
    pub start_ts: u64,
    pub primary: Seq<u8>,
    pub lock_ttl: u64,
    pub min_commit_ts: u64,
    pub assertion_level: AssertionLevel,
}

impl DeepView for TransactionProperties {
    type V = PropsModel;

    open spec fn deep_view(&self) -> PropsModel {
        PropsModel {
            start_ts: self.start_ts.0,
            primary: self.primary@,
            lock_ttl: self.lock_ttl,
            min_commit_ts: self.min_commit_ts.0,
            assertion_level: self.assertion_level,
        }
    }
}

/// Collects the modifications one command stages before they are handed to
/// the external write pipeline.
pub struct MvccTxn {
    pub start_ts: TimeStamp,
    pub modifies: Vec<Modify>,
}

impl MvccTxn {
    pub fn new(start_ts: TimeStamp) -> (r: MvccTxn)
        ensures
            r.start_ts == start_ts,
            r.modifies.deep_view() =~= Seq::<ModifyModel>::empty(),
    {
        MvccTxn { start_ts, modifies: Vec::new() }
    }

    /// Stages a lock for `key`.
    pub fn put_lock(&mut self, key: Vec<u8>, lock: Lock)
        ensures
            final(self).start_ts == old(self).start_ts,
            final(self).modifies.deep_view() =~= old(self).modifies.deep_view().push(
                ModifyModel::PutLock { key: key@, lock: lock.deep_view() },
            ),
    {
        self.modifies.push(Modify::PutLock { key, lock });
    }

    /// Drops everything staged so far (used when the transaction turns out
    /// to be already durably applied).
    pub fn clear(&mut self)
        ensures
            final(self).start_ts == old(self).start_ts,
            final(self).modifies.deep_view() =~= Seq::<ModifyModel>::empty(),
    {
        self.modifies.clear();
    }

    pub fn into_modifies(self) -> (r: Vec<Modify>)
        ensures
            r == self.modifies,
    {
        self.modifies
    }
}

// ------------------------------------------------------------------
// The decision, as mathematics
// ------------------------------------------------------------------
/// Existence decided from committed versions alone: the key exists when its
/// newest record is a live `Put`, or a `Lock`/`Rollback` marker under which
/// an older `Put` is still visible. The pair is the existing version's
/// (start, commit) timestamps.
pub open spec fn constraint_existing(
    m: StoreModel,
    k: Seq<u8>,
    w: WriteModel,
    commit_ts: u64,
) -> Option<(u64, u64)> {
    if w.is_fenced() {
        None
    } else if w.write_type == WriteType::Put {
        Some((w.start_ts, commit_ts))
    } else if w.write_type == WriteType::Delete {
        None
    } else {
        match resolve_read(m.versions_of(k), spec_prev_ts(commit_ts)) {
            Some(pv) => Some((pv.write.start_ts, pv.commit_ts)),
            None => None,
        }
    }
}

/// [`constraint_existing`] applied to the key's newest committed version.
pub open spec fn committed_existing(m: StoreModel, k: Seq<u8>) -> Option<(u64, u64)> {
    match m.latest_of(k) {
        Some(v) => constraint_existing(m, k, v.write, v.commit_ts),
        None => None,
    }
}

/// Existence as the prewrite engine sees it: a lock this same transaction
/// already holds buffers a pending value (`Put`) or a pending removal
/// (`Delete`), which takes precedence over the committed state.
pub open spec fn existing_version(
    m: StoreModel,
    k: Seq<u8>,
    same_lock: Option<LockModel>,
) -> Option<(u64, u64)> {
    match same_lock {
        Some(l) => if l.lock_type == LockType::Put {
            Some((l.ts, 0))
        } else if l.lock_type == LockType::Delete {
            None
        } else {
            committed_existing(m, k)
        },
        None => committed_existing(m, k),
    }
}

/// The lock a successful prewrite stages.
pub open spec fn new_lock_model(p: PropsModel, m: MutationModel, generation: u64) -> LockModel {
    LockModel {
        lock_type: m.lock_kind(),
        primary: p.primary,
        ts: p.start_ts,
        ttl: p.lock_ttl,
        short_value: m.value_opt(),
        min_commit_ts: p.min_commit_ts,
        generation,
        txn_kind: TxnKind::Optimistic,
        for_update_ts: 0,
        assertion_level: p.assertion_level,
    }
}

/// What one prewrite call does: stage a lock, succeed without staging
/// (a pure existence check), or fail with one precise error.
pub ghost enum PrewriteOutcome {
    Installed { lock: LockModel },
    NoOp,
    Fail { err: ErrorModel },
}

/// The complete decision table of the optimistic prewrite engine, in the
/// order the checks are made: foreign lock, stale generation, write
/// conflict, existence constraint, client assertion.
pub open spec fn prewrite_outcome(
    s: StoreModel,
    p: PropsModel,
    m: MutationModel,
    generation: u64,
) -> PrewriteOutcome {
    let k = m.key();
    match s.lock_of(k) {
        Some(l) => if l.ts != p.start_ts {
            PrewriteOutcome::Fail { err: ErrorModel::KeyIsLocked { key: k, lock: l } }
        } else if generation > 0 && l.generation >= generation {
            PrewriteOutcome::Fail {
                err: ErrorModel::GenerationOutOfOrder { generation, key: k, lock: l },
            }
        } else {
            prewrite_outcome_unlocked(s, p, m, generation, Some(l))
        },
        None => match s.latest_of(k) {
            Some(v) => if v.commit_ts >= p.start_ts {
                PrewriteOutcome::Fail {
                    err: ErrorModel::WriteConflict {
                        start_ts: p.start_ts,
                        conflict_start_ts: v.write.start_ts,
                        conflict_commit_ts: v.commit_ts,
                        key: k,
                        primary: p.primary,
                    },
                }
            } else {
                prewrite_outcome_unlocked(s, p, m, generation, None)
            },
            None => prewrite_outcome_unlocked(s, p, m, generation, None),
        },
    }
}

/// The tail of the decision once no foreign lock, stale generation or write
/// conflict stands in the way.
pub open spec fn prewrite_outcome_unlocked(
    s: StoreModel,
    p: PropsModel,
    m: MutationModel,
    generation: u64,
    same_lock: Option<LockModel>,
) -> PrewriteOutcome {
    let k = m.key();
    let ex = existing_version(s, k, same_lock);
    if m.should_not_exist() && ex is Some {
        PrewriteOutcome::Fail {
            err: ErrorModel::AlreadyExist {
                key: k,
                existing_start_ts: existing_start(ex),
            },
        }
    } else if p.assertion_level != AssertionLevel::Off && m.assertion() == Assertion::NotExist
        && ex is Some {
        PrewriteOutcome::Fail {
            err: ErrorModel::AssertionFailed {
                start_ts: p.start_ts,
                key: k,
                assertion: Assertion::NotExist,
                existing_start_ts: existing_start(ex),
                existing_commit_ts: existing_commit(ex),
            },
        }
    } else if p.assertion_level != AssertionLevel::Off && m.assertion() == Assertion::Exist
        && ex is None {
        PrewriteOutcome::Fail {
            err: ErrorModel::AssertionFailed {
                start_ts: p.start_ts,
                key: k,
                assertion: Assertion::Exist,
                existing_start_ts: 0,
                existing_commit_ts: 0,
            },
        }
    } else if m.is_check_not_exists() {
        PrewriteOutcome::NoOp
    } else {
        PrewriteOutcome::Installed { lock: new_lock_model(p, m, generation) }
    }
}

pub open spec fn existing_start(ex: Option<(u64, u64)>) -> u64 {
    match ex {
        Some(p) => p.0,
        None => 0,
    }
}

pub open spec fn existing_commit(ex: Option<(u64, u64)>) -> u64 {
    match ex {
        Some(p) => p.1,
        None => 0,
    }
}

// ------------------------------------------------------------------
// The decision, executable
// ------------------------------------------------------------------
/// Existence from committed versions alone (see [`committed_existing`]).
fn committed_existing_exec(reader: &SnapshotReader<'_>, key: &Vec<u8>) -> (r: Option<(
    TimeStamp,
    TimeStamp,
)>)
    ensures
        match r {
            Some(p) => committed_existing(reader.model(), key@) == Some((p.0.0, p.1.0)),
            None => committed_existing(reader.model(), key@) is None,
        },
{
    match reader.seek_latest(key) {
        Some(v) => {
            let fenced = match v.write.gc_fence {
                Some(f) => f.0 != 0,
                None => false,
            };
            if fenced {
                None
            } else if matches!(v.write.write_type, WriteType::Put) {
                Some((v.write.start_ts, v.commit_ts))
            } else if matches!(v.write.write_type, WriteType::Delete) {
                None
            } else {
                match reader.get_write_version(key, v.commit_ts.prev()) {
                    Some(pv) => Some((pv.write.start_ts, pv.commit_ts)),
                    None => None,
                }
            }
        },
        None => None,
    }
}

/// Existence as the engine sees it (see [`existing_version`]).
fn existing_version_exec(
    reader: &SnapshotReader<'_>,
    key: &Vec<u8>,
    same_lock: Option<&Lock>,
) -> (r: Option<(TimeStamp, TimeStamp)>)
    ensures
        ({
            let sl = match same_lock {
                Some(l) => Some(l.deep_view()),
                None => None,
            };
            match r {
                Some(p) => existing_version(reader.model(), key@, sl) == Some((p.0.0, p.1.0)),
                None => existing_version(reader.model(), key@, sl) is None,
            }
        }),
{
    match same_lock {
        Some(l) => match l.lock_type {
            LockType::Put => Some((l.ts, TimeStamp::zero())),
            LockType::Delete => None,
            LockType::Lock => committed_existing_exec(reader, key),
        },
        None => committed_existing_exec(reader, key),
    }
}

/// Checks the existence of the key according to `should_not_exist`, against
/// `write`, which the caller guarantees to be the key's latest write, at
/// position `write_commit_ts`. Reports `AlreadyExist` exactly when the
/// constraint is violated: the latest non-superseded write is a `Put`, or a
/// `Rollback`/`Lock` marker with an older `Put` still visible beneath it; a
/// `Delete` or a fence-marked record means the key does not exist.
pub fn check_existence(
    reader: &SnapshotReader<'_>,
    should_not_exist: bool,
    write: &Write,
    write_commit_ts: TimeStamp,
    key: &Vec<u8>,
) -> (r: Result<(), Error>)
    ensures
        match r {
            Ok(_) => !(should_not_exist && constraint_existing(
                reader.model(),
                key@,
                write.deep_view(),
                write_commit_ts.0,
            ) is Some),
            Err(e) => {
                &&& should_not_exist
                &&& constraint_existing(
                    reader.model(),
                    key@,
                    write.deep_view(),
                    write_commit_ts.0,
                ) is Some
                &&& e.deep_view() == (ErrorModel::AlreadyExist {
                    key: key@,
                    existing_start_ts: existing_start(
                        constraint_existing(
                            reader.model(),
                            key@,
                            write.deep_view(),
                            write_commit_ts.0,
                        ),
                    ),
                })
            },
        },
{
    let write_is_invalid = match write.gc_fence {
        Some(f) => f.0 != 0,
        None => false,
    };
    if !should_not_exist || matches!(write.write_type, WriteType::Delete) || write_is_invalid {
        return Ok(());
    }
    let existing_start_ts: Option<TimeStamp> = if matches!(write.write_type, WriteType::Put) {
        Some(write.start_ts)
    } else {
        match reader.get_write(key, write_commit_ts.prev()) {
            Some(prev_write) => Some(prev_write.start_ts),
            None => None,
        }
    };
    if let Some(existing_start_ts) = existing_start_ts {
        return Err(Error::AlreadyExist { key: clone_bytes(key), existing_start_ts });
    }
    Ok(())
}

/// Decides one mutation against the snapshot and, on success, stages its
/// lock in `txn`. Returns the staged lock's minimum commit timestamp. The
/// result and the staged batch are exactly [`prewrite_outcome`]; in
/// particular this engine never reports `PessimisticLockNotFound`,
/// `CommitTsTooLarge` or a wrapped lower-layer error.
pub fn prewrite_with_generation(
    txn: &mut MvccTxn,
    reader: &SnapshotReader<'_>,
    props: &TransactionProperties,
    m: &Mutation,
    generation: u64,
) -> (r: Result<TimeStamp, Error>)
    ensures
        final(txn).start_ts == old(txn).start_ts,
        match prewrite_outcome(reader.model(), props.deep_view(), m.deep_view(), generation) {
            PrewriteOutcome::Installed { lock } => {
                &&& r matches Ok(ts) && ts.0 == props.min_commit_ts.0
                &&& final(txn).modifies.deep_view() == old(txn).modifies.deep_view().push(
                    ModifyModel::PutLock { key: m.deep_view().key(), lock },
                )
            },
            PrewriteOutcome::NoOp => {
                &&& r matches Ok(ts) && ts.0 == props.min_commit_ts.0
                &&& final(txn).modifies.deep_view() == old(txn).modifies.deep_view()
            },
            PrewriteOutcome::Fail { err } => {
                &&& r matches Err(e) && e.deep_view() == err
                &&& final(txn).modifies.deep_view() == old(txn).modifies.deep_view()
            },
        },
{
    let key = m.key();
    let lock_opt = reader.get_lock(key);
    if let Some(l) = lock_opt {
        if l.ts.0 != props.start_ts.0 {
            return Err(Error::KeyIsLocked { key: clone_bytes(key), lock: clone_lock(l) });
        }
        if generation > 0 && l.generation >= generation {
            return Err(
                Error::GenerationOutOfOrder {
                    generation,
                    key: clone_bytes(key),
                    lock: clone_lock(l),
                },
            );
        }
    } else {
        if let Some(latest) = reader.seek_latest(key) {
            if latest.commit_ts.0 >= props.start_ts.0 {
                return Err(
                    Error::WriteConflict {
                        start_ts: props.start_ts,
                        conflict_start_ts: latest.write.start_ts,
                        conflict_commit_ts: latest.commit_ts,
                        key: clone_bytes(key),
                        primary: clone_bytes(&props.primary),
                    },
                );
            }
        }
    }
    let ex = existing_version_exec(reader, key, lock_opt);
    if m.should_not_exist() {
        if let Some((existing_start_ts, _)) = ex {
            return Err(Error::AlreadyExist { key: clone_bytes(key), existing_start_ts });
        }
    }
    let assertion = m.assertion();
    if !matches!(props.assertion_level, AssertionLevel::Off) {
        match assertion {
            Assertion::NotExist => {
                if let Some((existing_start_ts, existing_commit_ts)) = ex {
                    return Err(
                        Error::AssertionFailed {
                            start_ts: props.start_ts,
                            key: clone_bytes(key),
                            assertion,
                            existing_start_ts,
                            existing_commit_ts,
                        },
                    );
                }
            },
            Assertion::Exist => {
                if ex.is_none() {
                    return Err(
                        Error::AssertionFailed {
                            start_ts: props.start_ts,
                            key: clone_bytes(key),
                            assertion,
                            existing_start_ts: TimeStamp::zero(),
                            existing_commit_ts: TimeStamp::zero(),
                        },
                    );
                }
            },
            Assertion::Unset => {},
        }
    }
    if m.is_check_not_exists() {
        return Ok(props.min_commit_ts);
    }
    let lock = Lock {
        lock_type: m.lock_kind(),
        primary: clone_bytes(&props.primary),
        ts: props.start_ts,
        ttl: props.lock_ttl,
        short_value: match m.value_ref() {
            Some(v) => Some(clone_bytes(v)),
            None => None,
        },
        min_commit_ts: props.min_commit_ts,
        generation,
        txn_kind: TxnKind::Optimistic,
        for_update_ts: TimeStamp::zero(),
        assertion_level: props.assertion_level,
    };
    txn.put_lock(clone_bytes(key), lock);
    Ok(props.min_commit_ts)
}

/// The committed-record check: the record, if any, that this transaction
/// already left on `key`. A non-`Rollback` record means the transaction's
/// effect on the key is already durable and a retry must be treated as
/// already applied.
pub fn find_committed<'r>(
    reader: &'r SnapshotReader<'_>,
    key: &Vec<u8>,
    start_ts: TimeStamp,
) -> (r: Option<&'r crate::store::Version>)
    ensures
        match r {
            Some(v) => committed_record(reader.model().versions_of(key@), start_ts.0) == Some(
                v.deep_view(),
            ),
            None => committed_record(reader.model().versions_of(key@), start_ts.0) is None,
        },
{
    reader.find_committed_record(key, start_ts)
}

/// Whether the committed-record check succeeds: this transaction's effect on
/// the key is already durably committed.
pub open spec fn commit_check_passes(s: StoreModel, k: Seq<u8>, start_ts: u64) -> bool {
    match committed_record(s.versions_of(k), start_ts) {
        Some(v) => v.write.write_type != WriteType::Rollback,
        None => false,
    }
}

} // verus!
