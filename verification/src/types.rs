//! Plain data model of the versioned store: timestamps, committed write
//! records, provisional lock records, and client mutations.
//!
//! Every executable type has a ghost model (`..Model`) over mathematical
//! sequences; contracts throughout the crate speak of those models.

use vstd::prelude::*;

verus! {

/// A logical timestamp issued by the (external) timestamp oracle. Both
/// transaction start points and commit points are timestamps; a larger value
/// is a later point in time.
#[derive(Clone, Copy, Debug, PartialEq, Eq, Structural, Hash)]
pub struct TimeStamp(pub u64);

impl TimeStamp {
    pub fn new(ts: u64) -> (r: TimeStamp)
        ensures
            r.0 == ts,
    {
        TimeStamp(ts)
    }

    pub fn zero() -> (r: TimeStamp)
        ensures
            r.0 == 0,
    {
        TimeStamp(0)
    }

    pub fn is_zero(&self) -> (r: bool)
        ensures
            r == (self.0 == 0),
    {
        self.0 == 0
    }

    /// The timestamp immediately before this one; zero has no predecessor and
    /// stays zero.
    pub fn prev(self) -> (r: TimeStamp)
        ensures
            r.0 == spec_prev_ts(self.0),
    {
        if self.0 == 0 {
            TimeStamp(0)
        } else {
            TimeStamp(self.0 - 1)
        }
    }

    /// The timestamp immediately after this one.
    pub fn next(self) -> (r: TimeStamp)
        requires
            self.0 < u64::MAX,
        ensures
            r.0 == self.0 + 1,
    {
        TimeStamp(self.0 + 1)
    }

    pub fn into_inner(self) -> (r: u64)
        ensures
            r == self.0,
    {
        self.0
    }
}

pub open spec fn spec_prev_ts(ts: u64) -> u64 {
    if ts == 0 {
        0u64
    } else {
        (ts - 1) as u64
    }
}

/// The kind of a committed version. `Put` and `Delete` carry the key's value
/// history; `Lock` and `Rollback` records mark transaction outcomes and carry
/// no value.
#[derive(Clone, Copy, Debug, PartialEq, Eq, Structural, Hash)]
pub enum WriteType {
    Put,
    Delete,
    Lock,
    Rollback,
}

/// The kind of effect a provisional lock will have when committed.
#[derive(Clone, Copy, Debug, PartialEq, Eq, Structural, Hash)]
pub enum LockType {
    Put,
    Delete,
    Lock,
}

/// Whether the transaction that installed a lock runs the optimistic or the
/// pessimistic protocol. The flush path only ever installs optimistic locks.
#[derive(Clone, Copy, Debug, PartialEq, Eq, Structural, Hash)]
pub enum TxnKind {
    Optimistic,
    Pessimistic,
}

/// A client-declared expectation about a key's prior existence, checked
/// during prewrite as an extra safety net.
#[derive(Clone, Copy, Debug, PartialEq, Eq, Structural, Hash)]
pub enum Assertion {
    Unset,
    NotExist,
    Exist,
}

/// How strictly per-mutation assertions are enforced. `Off` skips them.
#[derive(Clone, Copy, Debug, PartialEq, Eq, Structural, Hash)]
pub enum AssertionLevel {
    Off,
    Fast,
    Strict,
}

/// A committed version of some key. The commit timestamp is not part of the
/// record itself: it is the record's position in the key's version history.
#[derive(Debug, PartialEq)]
pub struct Write {
    pub write_type: WriteType,
    /// Start timestamp of the transaction that committed this version.
    pub start_ts: TimeStamp,
    /// The value, for `Put` records.
    pub short_value: Option<Vec<u8>>,
    /// Set and non-zero when this record was logically superseded (garbage
    /// collected forward); such a record must never be treated as the current
    /// value of the key.
    pub gc_fence: Option<TimeStamp>,
}

/// Ghost model of a [`Write`].
pub ghost struct WriteModel {
    pub write_type: WriteType,
    pub start_ts: u64,
    pub short_value: Option<Seq<u8>>,
    pub gc_fence: Option<u64>,
}

impl DeepView for Write {
    type V = WriteModel;

    open spec fn deep_view(&self) -> WriteModel {
        WriteModel {
            write_type: self.write_type,
            start_ts: self.start_ts.0,
            short_value: match self.short_value {
                Some(ref v) => Some(v@),
                None => None,
            },
            gc_fence: match self.gc_fence {
                Some(f) => Some(f.0),
                None => None,
            },
        }
    }
}

impl WriteModel {
    /// A superseded record: its garbage-collection fence is set and non-zero.
    pub open spec fn is_fenced(self) -> bool {
        match self.gc_fence {
            Some(f) => f != 0,
            None => false,
        }
    }
}

impl Write {
    pub fn new(write_type: WriteType, start_ts: TimeStamp, short_value: Option<Vec<u8>>) -> (r:
        Write)
        ensures
            r.deep_view() == (WriteModel {
                write_type,
                start_ts: start_ts.0,
                short_value: match short_value {
                    Some(ref v) => Some(v@),
                    None => None,
                },
                gc_fence: None,
            }),
    {
        Write { write_type, start_ts, short_value, gc_fence: None }
    }
}

/// An in-flight transaction's provisional claim on a key. At most one lock
/// exists per key at a time; commit or rollback removes it.
#[derive(Debug, PartialEq)]
pub struct Lock {
    pub lock_type: LockType,
    /// The transaction's primary key, whose lock decides the whole
    /// transaction's fate.
    pub primary: Vec<u8>,
    /// Start timestamp of the owning transaction.
    pub ts: TimeStamp,
    pub ttl: u64,
    /// The provisional value, for `Put` locks.
    pub short_value: Option<Vec<u8>>,
    pub min_commit_ts: TimeStamp,
    /// Retry counter of the pipelined flush path; zero for ordinary
    /// prewrites.
    pub generation: u64,
    pub txn_kind: TxnKind,
    pub for_update_ts: TimeStamp,
    pub assertion_level: AssertionLevel,
}

/// Ghost model of a [`Lock`].
pub ghost struct LockModel {
    pub lock_type: LockType,
    pub primary: Seq<u8>,
    pub ts: u64,
    pub ttl: u64,
    pub short_value: Option<Seq<u8>>,
    pub min_commit_ts: u64,
    pub generation: u64,
    pub txn_kind: TxnKind,
    pub for_update_ts: u64,
    pub assertion_level: AssertionLevel,
}

impl DeepView for Lock {
    type V = LockModel;

    open spec fn deep_view(&self) -> LockModel {
        LockModel {
            lock_type: self.lock_type,
            primary: self.primary@,
            ts: self.ts.0,
            ttl: self.ttl,
            short_value: match self.short_value {
                Some(ref v) => Some(v@),
                None => None,
            },
            min_commit_ts: self.min_commit_ts.0,
            generation: self.generation,
            txn_kind: self.txn_kind,
            for_update_ts: self.for_update_ts.0,
            assertion_level: self.assertion_level,
        }
    }
}

/// A single client-issued change to one key. `Insert` is `Put` with an
/// implied must-not-exist constraint; `CheckNotExists` only checks the
/// constraint and stages nothing.
#[derive(Debug, PartialEq)]
pub enum Mutation {
    Put((Vec<u8>, Vec<u8>), Assertion),
    Insert((Vec<u8>, Vec<u8>), Assertion),
    Delete(Vec<u8>, Assertion),
    Lock(Vec<u8>, Assertion),
    CheckNotExists(Vec<u8>, Assertion),
}

/// Ghost model of a [`Mutation`].
pub ghost enum MutationModel {
    Put { key: Seq<u8>, value: Seq<u8>, assertion: Assertion },
    Insert { key: Seq<u8>, value: Seq<u8>, assertion: Assertion },
    Delete { key: Seq<u8>, assertion: Assertion },
    Lock { key: Seq<u8>, assertion: Assertion },
    CheckNotExists { key: Seq<u8>, assertion: Assertion },
}

impl DeepView for Mutation {
    type V = MutationModel;

    open spec fn deep_view(&self) -> MutationModel {
        match self {
            Mutation::Put((key, value), assertion) => MutationModel::Put {
                key: key@,
                value: value@,
                assertion: *assertion,
            },
            Mutation::Insert((key, value), assertion) => MutationModel::Insert {
                key: key@,
                value: value@,
                assertion: *assertion,
            },
            Mutation::Delete(key, assertion) => MutationModel::Delete {
                key: key@,
                assertion: *assertion,
            },
            Mutation::Lock(key, assertion) => MutationModel::Lock {
                key: key@,
                assertion: *assertion,
            },
            Mutation::CheckNotExists(key, assertion) => MutationModel::CheckNotExists {
                key: key@,
                assertion: *assertion,
            },
        }
    }
}

impl MutationModel {
    pub open spec fn key(self) -> Seq<u8> {
        match self {
            MutationModel::Put { key, .. } => key,
            MutationModel::Insert { key, .. } => key,
            MutationModel::Delete { key, .. } => key,
            MutationModel::Lock { key, .. } => key,
            MutationModel::CheckNotExists { key, .. } => key,
        }
    }

    pub open spec fn assertion(self) -> Assertion {
        match self {
            MutationModel::Put { assertion, .. } => assertion,
            MutationModel::Insert { assertion, .. } => assertion,
            MutationModel::Delete { assertion, .. } => assertion,
            MutationModel::Lock { assertion, .. } => assertion,
            MutationModel::CheckNotExists { assertion, .. } => assertion,
        }
    }

    /// Whether this mutation carries the insert-if-absent constraint.
    pub open spec fn should_not_exist(self) -> bool {
        self is Insert || self is CheckNotExists
    }

    pub open spec fn is_check_not_exists(self) -> bool {
        self is CheckNotExists
    }

    /// The kind of lock this mutation installs; `CheckNotExists` installs
    /// none.
    pub open spec fn lock_kind(self) -> LockType {
        match self {
            MutationModel::Put { .. } => LockType::Put,
            MutationModel::Insert { .. } => LockType::Put,
            MutationModel::Delete { .. } => LockType::Delete,
            MutationModel::Lock { .. } => LockType::Lock,
            MutationModel::CheckNotExists { .. } => LockType::Lock,
        }
    }

    pub open spec fn value_opt(self) -> Option<Seq<u8>> {
        match self {
            MutationModel::Put { value, .. } => Some(value),
            MutationModel::Insert { value, .. } => Some(value),
            _ => None,
        }
    }
}

impl Mutation {
    pub fn key(&self) -> (r: &Vec<u8>)
        ensures
            r@ == self.deep_view().key(),
    {
        match self {
            Mutation::Put((key, _), _) => key,
            Mutation::Insert((key, _), _) => key,
            Mutation::Delete(key, _) => key,
            Mutation::Lock(key, _) => key,
            Mutation::CheckNotExists(key, _) => key,
        }
    }

    pub fn assertion(&self) -> (r: Assertion)
        ensures
            r == self.deep_view().assertion(),
    {
        match self {
            Mutation::Put(_, assertion) => *assertion,
            Mutation::Insert(_, assertion) => *assertion,
            Mutation::Delete(_, assertion) => *assertion,
            Mutation::Lock(_, assertion) => *assertion,
            Mutation::CheckNotExists(_, assertion) => *assertion,
        }
    }

    pub fn should_not_exist(&self) -> (r: bool)
        ensures
            r == self.deep_view().should_not_exist(),
    {
        match self {
            Mutation::Insert(..) => true,
            Mutation::CheckNotExists(..) => true,
            _ => false,
        }
    }

    pub fn is_check_not_exists(&self) -> (r: bool)
        ensures
            r == self.deep_view().is_check_not_exists(),
    {
        match self {
            Mutation::CheckNotExists(..) => true,
            _ => false,
        }
    }

    pub fn lock_kind(&self) -> (r: LockType)
        ensures
            r == self.deep_view().lock_kind(),
    {
        match self {
            Mutation::Put(..) => LockType::Put,
            Mutation::Insert(..) => LockType::Put,
            Mutation::Delete(..) => LockType::Delete,
            Mutation::Lock(..) => LockType::Lock,
            Mutation::CheckNotExists(..) => LockType::Lock,
        }
    }

    pub fn value_ref(&self) -> (r: Option<&Vec<u8>>)
        ensures
            match r {
                Some(v) => self.deep_view().value_opt() == Some(v@),
                None => self.deep_view().value_opt() is None,
            },
    {
        match self {
            Mutation::Put((_, value), _) => Some(value),
            Mutation::Insert((_, value), _) => Some(value),
            _ => None,
        }
    }
}

/// Copies a lock record; the copy's model equals the original's.
pub fn clone_lock(l: &Lock) -> (r: Lock)
    ensures
        r.deep_view() == l.deep_view(),
{
    Lock {
        lock_type: l.lock_type,
        primary: clone_bytes(&l.primary),
        ts: l.ts,
        ttl: l.ttl,
        short_value: clone_opt_bytes(&l.short_value),
        min_commit_ts: l.min_commit_ts,
        generation: l.generation,
        txn_kind: l.txn_kind,
        for_update_ts: l.for_update_ts,
        assertion_level: l.assertion_level,
    }
}

/// Copies a byte vector; the copy's contents equal the original's.
pub fn clone_bytes(v: &Vec<u8>) -> (r: Vec<u8>)
    ensures
        r@ == v@,
{
    let mut r: Vec<u8> = Vec::new();
    let mut i: usize = 0;
    while i < v.len()
        invariant
            i <= v.len(),
            r@ == v@.subrange(0, i as int),
        decreases v.len() - i,
    {
        r.push(v[i]);
        proof {
            assert(r@ =~= v@.subrange(0, i + 1 as int));
        }
        i = i + 1;
    }
    proof {
        assert(r@ =~= v@);
    }
    r
}

/// Copies an optional byte vector.
pub fn clone_opt_bytes(v: &Option<Vec<u8>>) -> (r: Option<Vec<u8>>)
    ensures
        match v {
            Some(b) => r matches Some(rb) && rb@ == b@,
            None => r is None,
        },
{
    match v {
        Some(b) => Some(clone_bytes(b)),
        None => None,
    }
}

/// A byte vector's deep view is its plain view.
pub broadcast proof fn lemma_bytes_deep_view(v: Vec<u8>)
    ensures
        #[trigger] v.deep_view() == v@,
{
    assert(v.deep_view() =~= v@);
}

/// A pair of byte vectors' deep view is the pair of plain views.
pub broadcast proof fn lemma_pair_deep_view(e: (Vec<u8>, Vec<u8>))
    ensures
        #[trigger] e.deep_view() == (e.0@, e.1@),
{
    assert(e.deep_view().0 =~= e.0@);
    assert(e.deep_view().1 =~= e.1@);
}

/// Compares two byte strings for equality of contents.
pub fn bytes_eq(a: &Vec<u8>, b: &Vec<u8>) -> (r: bool)
    ensures
        r == (a@ == b@),
{
    if a.len() != b.len() {
        proof {
            assert(a@.len() != b@.len());
        }
        return false;
    }
    let mut i: usize = 0;
    while i < a.len()
        invariant
            i <= a.len(),
            a@.len() == b@.len(),
            forall|j: int| 0 <= j < i ==> a@[j] == b@[j],
        decreases a.len() - i,
    {
        if a[i] != b[i] {
            return false;
        }
        i = i + 1;
    }
    proof {
        assert(a@ =~= b@);
    }
    true
}

} // verus!
