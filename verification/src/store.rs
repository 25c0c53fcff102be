//! An in-memory model of the versioned key-value state: per key, an ordered
//! history of committed versions and at most one provisional lock.
//!
//! The store plays the role of the storage engine's point-in-time view for
//! the prewrite/flush engine, and carries the staged write batch back in via
//! [`MvccStore::apply`]. Its ghost model is a pair of maps keyed by the raw
//! key bytes.

use vstd::prelude::*;
use crate::errors::{Error, ErrorModel};
use crate::types::{bytes_eq, clone_bytes, Lock, LockModel, LockType, TimeStamp, Write, WriteModel,
    WriteType};

verus! {

/// A committed version: a write record together with the commit timestamp
/// that positions it in the key's history.
#[derive(Debug, PartialEq)]
pub struct Version {
    pub commit_ts: TimeStamp,
    pub write: Write,
}

/// Ghost model of a [`Version`].
pub ghost struct VersionModel {
    pub commit_ts: u64,
    pub write: WriteModel,
}

impl DeepView for Version {
    type V = VersionModel;

    open spec fn deep_view(&self) -> VersionModel {
        VersionModel { commit_ts: self.commit_ts.0, write: self.write.deep_view() }
    }
}

/// One entry of the staged write batch: the flush path only ever stages
/// provisional locks.
#[derive(Debug, PartialEq)]
pub enum Modify {
    PutLock { key: Vec<u8>, lock: Lock },
}

/// Ghost model of a [`Modify`].
pub ghost enum ModifyModel {
    PutLock { key: Seq<u8>, lock: LockModel },
}

impl DeepView for Modify {
    type V = ModifyModel;

    open spec fn deep_view(&self) -> ModifyModel {
        match self {
            Modify::PutLock { key, lock } => ModifyModel::PutLock {
                key: key@,
                lock: lock.deep_view(),
            },
        }
    }
}

/// Ghost model of the whole store: the current lock per key and the version
/// history per key, newest first.
pub ghost struct StoreModel {
    pub locks: Map<Seq<u8>, LockModel>,
    pub writes: Map<Seq<u8>, Seq<VersionModel>>,
}

/// Association list to map, first binding of a key winning, exactly as a
/// front-to-back linear search finds it.
pub open spec fn assoc_map<T: DeepView>(s: Seq<(Vec<u8>, T)>) -> Map<Seq<u8>, T::V>
    decreases s.len(),
{
    if s.len() == 0 {
        Map::empty()
    } else {
        assoc_map(s.skip(1)).insert(s[0].0@, s[0].1.deep_view())
    }
}

pub open spec fn keys_unique<T>(s: Seq<(Vec<u8>, T)>) -> bool {
    forall|i: int, j: int| 0 <= i < j < s.len() ==> s[i].0@ != s[j].0@
}

impl StoreModel {
    pub open spec fn lock_of(self, k: Seq<u8>) -> Option<LockModel> {
        if self.locks.contains_key(k) {
            Some(self.locks[k])
        } else {
            None
        }
    }

    pub open spec fn versions_of(self, k: Seq<u8>) -> Seq<VersionModel> {
        if self.writes.contains_key(k) {
            self.writes[k]
        } else {
            Seq::empty()
        }
    }

    /// The newest committed version of a key, whatever its type.
    pub open spec fn latest_of(self, k: Seq<u8>) -> Option<VersionModel> {
        if self.versions_of(k).len() == 0 {
            None
        } else {
            Some(self.versions_of(k)[0])
        }
    }

    /// Version histories are kept newest first, with strictly decreasing
    /// commit timestamps.
    pub open spec fn wf(self) -> bool {
        forall|k: Seq<u8>| #[trigger] self.writes.contains_key(k) ==> sorted_desc(self.writes[k])
    }
}

pub open spec fn sorted_desc(vers: Seq<VersionModel>) -> bool {
    forall|i: int, j: int| 0 <= i < j < vers.len() ==> vers[i].commit_ts > vers[j].commit_ts
}

/// The version a read at `ts` resolves to: the newest version at or below
/// `ts`, skipping records that carry no value (`Lock`, `Rollback`), stopping
/// with nothing at a tombstone (`Delete`) or at a superseded (`gc_fence`d)
/// record.
pub open spec fn resolve_read(vers: Seq<VersionModel>, ts: u64) -> Option<VersionModel>
    decreases vers.len(),
{
    if vers.len() == 0 {
        None
    } else if vers[0].commit_ts > ts {
        resolve_read(vers.skip(1), ts)
    } else if vers[0].write.write_type == WriteType::Put {
        if vers[0].write.is_fenced() {
            None
        } else {
            Some(vers[0])
        }
    } else if vers[0].write.write_type == WriteType::Delete {
        None
    } else {
        resolve_read(vers.skip(1), ts)
    }
}

/// The committed record, if any, that the transaction starting at `start_ts`
/// left on this key.
pub open spec fn committed_record(vers: Seq<VersionModel>, start_ts: u64) -> Option<VersionModel>
    decreases vers.len(),
{
    if vers.len() == 0 {
        None
    } else if vers[0].write.start_ts == start_ts {
        Some(vers[0])
    } else {
        committed_record(vers.skip(1), start_ts)
    }
}

/// The write record a lock turns into when its transaction commits.
pub open spec fn write_of_lock(l: LockModel) -> WriteModel {
    WriteModel {
        write_type: match l.lock_type {
            LockType::Put => WriteType::Put,
            LockType::Delete => WriteType::Delete,
            LockType::Lock => WriteType::Lock,
        },
        start_ts: l.ts,
        short_value: l.short_value,
        gc_fence: None,
    }
}

/// The store after a lock is promoted to a committed version at `commit_ts`.
pub open spec fn commit_model(m: StoreModel, k: Seq<u8>, commit_ts: u64, l: LockModel) -> StoreModel {
    StoreModel {
        locks: m.locks.remove(k),
        writes: m.writes.insert(
            k,
            seq![VersionModel { commit_ts, write: write_of_lock(l) }] + m.versions_of(k),
        ),
    }
}

/// The value a read of `k` at `ts` returns.
pub open spec fn read_value(m: StoreModel, k: Seq<u8>, ts: u64) -> Option<Seq<u8>> {
    match resolve_read(m.versions_of(k), ts) {
        Some(v) => v.write.short_value,
        None => None,
    }
}

/// The in-memory store.
pub struct MvccStore {
    pub locks: Vec<(Vec<u8>, Lock)>,
    pub writes: Vec<(Vec<u8>, Vec<Version>)>,
}

impl View for MvccStore {
    type V = StoreModel;

    open spec fn view(&self) -> StoreModel {
        StoreModel { locks: assoc_map(self.locks@), writes: assoc_map(self.writes@) }
    }
}

impl MvccStore {
    /// Representation invariant: keys occur once per table and histories are
    /// newest first.
    pub open spec fn inv(self) -> bool {
        &&& keys_unique(self.locks@)
        &&& keys_unique(self.writes@)
        &&& forall|i: int|
            0 <= i < self.writes@.len() ==> sorted_desc(#[trigger] self.writes@[i].1.deep_view())
    }

    pub fn new() -> (r: MvccStore)
        ensures
            r.inv(),
            r@.locks =~= Map::<Seq<u8>, LockModel>::empty(),
            r@.writes =~= Map::<Seq<u8>, Seq<VersionModel>>::empty(),
    {
        MvccStore { locks: Vec::new(), writes: Vec::new() }
    }

    /// Index of the lock entry for `key`, if one exists.
    fn lock_index(&self, key: &Vec<u8>) -> (r: Option<usize>)
        ensures
            match r {
                Some(i) => {
                    &&& i < self.locks@.len()
                    &&& self.locks@[i as int].0@ == key@
                    &&& forall|j: int| 0 <= j < i ==> self.locks@[j].0@ != key@
                    &&& self@.locks.contains_key(key@)
                    &&& self@.locks[key@] == self.locks@[i as int].1.deep_view()
                },
                None => {
                    &&& !self@.locks.contains_key(key@)
                    &&& forall|j: int| 0 <= j < self.locks@.len() ==> self.locks@[j].0@ != key@
                },
            },
    {
        let mut i: usize = 0;
        while i < self.locks.len()
            invariant
                i <= self.locks@.len(),
                forall|j: int| 0 <= j < i ==> self.locks@[j].0@ != key@,
            decreases self.locks@.len() - i,
        {
            if bytes_eq(&self.locks[i].0, key) {
                proof {
                    lemma_assoc_first_match(self.locks@, key@, i as int);
                }
                return Some(i);
            }
            i = i + 1;
        }
        proof {
            lemma_assoc_no_match(self.locks@, key@);
        }
        None
    }

    /// Index of the version-history entry for `key`, if one exists.
    fn versions_index(&self, key: &Vec<u8>) -> (r: Option<usize>)
        ensures
            match r {
                Some(i) => {
                    &&& i < self.writes@.len()
                    &&& self.writes@[i as int].0@ == key@
                    &&& forall|j: int| 0 <= j < i ==> self.writes@[j].0@ != key@
                    &&& self@.writes.contains_key(key@)
                    &&& self@.writes[key@] == self.writes@[i as int].1.deep_view()
                },
                None => {
                    &&& !self@.writes.contains_key(key@)
                    &&& forall|j: int| 0 <= j < self.writes@.len() ==> self.writes@[j].0@ != key@
                },
            },
    {
        let mut i: usize = 0;
        while i < self.writes.len()
            invariant
                i <= self.writes@.len(),
                forall|j: int| 0 <= j < i ==> self.writes@[j].0@ != key@,
            decreases self.writes@.len() - i,
        {
            if bytes_eq(&self.writes[i].0, key) {
                proof {
                    lemma_assoc_first_match(self.writes@, key@, i as int);
                }
                return Some(i);
            }
            i = i + 1;
        }
        proof {
            lemma_assoc_no_match(self.writes@, key@);
        }
        None
    }

    /// The current lock on `key`, if any.
    pub fn get_lock(&self, key: &Vec<u8>) -> (r: Option<&Lock>)
        ensures
            match r {
                Some(l) => self@.lock_of(key@) == Some(l.deep_view()),
                None => self@.lock_of(key@) is None,
            },
    {
        match self.lock_index(key) {
            Some(i) => Some(&self.locks[i].1),
            None => None,
        }
    }

    /// The newest committed version of `key`, whatever its type.
    pub fn seek_latest(&self, key: &Vec<u8>) -> (r: Option<&Version>)
        ensures
            match r {
                Some(v) => self@.latest_of(key@) == Some(v.deep_view()),
                None => self@.latest_of(key@) is None,
            },
    {
        match self.versions_index(key) {
            Some(i) => {
                let vers = &self.writes[i].1;
                if vers.len() == 0 {
                    None
                } else {
                    Some(&vers[0])
                }
            },
            None => None,
        }
    }

    /// The version a read of `key` at `ts` resolves to (see [`resolve_read`]).
    pub fn get_write_version(&self, key: &Vec<u8>, ts: TimeStamp) -> (r: Option<&Version>)
        ensures
            match r {
                Some(v) => resolve_read(self@.versions_of(key@), ts.0) == Some(v.deep_view()),
                None => resolve_read(self@.versions_of(key@), ts.0) is None,
            },
    {
        match self.versions_index(key) {
            Some(idx) => {
                let vers = &self.writes[idx].1;
                let ghost vm = vers.deep_view();
                let mut i: usize = 0;
                proof {
                    assert(vm.skip(0) =~= vm);
                }
                while i < vers.len()
                    invariant
                        i <= vers@.len(),
                        vm == vers.deep_view(),
                        vm.len() == vers@.len(),
                        self@.versions_of(key@) == vm,
                        resolve_read(vm, ts.0) == resolve_read(vm.skip(i as int), ts.0),
                    decreases vers@.len() - i,
                {
                    proof {
                        lemma_skip_step(vm, i as int);
                    }
                    let v = &vers[i];
                    if v.commit_ts.0 > ts.0 {
                        // newer than the read point: keep scanning
                    } else if matches!(v.write.write_type, WriteType::Put) {
                        let fenced = match v.write.gc_fence {
                            Some(f) => f.0 != 0,
                            None => false,
                        };
                        if fenced {
                            return None;
                        } else {
                            return Some(v);
                        }
                    } else if matches!(v.write.write_type, WriteType::Delete) {
                        return None;
                    }
                    i = i + 1;
                }
                proof {
                    assert(vm.skip(i as int).len() == 0);
                }
                None
            },
            None => None,
        }
    }

    /// As [`Self::get_write_version`], but handing back only the write
    /// record.
    pub fn get_write(&self, key: &Vec<u8>, ts: TimeStamp) -> (r: Option<&Write>)
        ensures
            match r {
                Some(w) => match resolve_read(self@.versions_of(key@), ts.0) {
                    Some(v) => v.write == w.deep_view(),
                    None => false,
                },
                None => resolve_read(self@.versions_of(key@), ts.0) is None,
            },
    {
        match self.get_write_version(key, ts) {
            Some(v) => Some(&v.write),
            None => None,
        }
    }

    /// The committed record, if any, left on `key` by the transaction that
    /// started at `start_ts`.
    pub fn find_committed_record(&self, key: &Vec<u8>, start_ts: TimeStamp) -> (r: Option<&Version>)
        ensures
            match r {
                Some(v) => committed_record(self@.versions_of(key@), start_ts.0) == Some(
                    v.deep_view(),
                ),
                None => committed_record(self@.versions_of(key@), start_ts.0) is None,
            },
    {
        match self.versions_index(key) {
            Some(idx) => {
                let vers = &self.writes[idx].1;
                let ghost vm = vers.deep_view();
                let mut i: usize = 0;
                proof {
                    assert(vm.skip(0) =~= vm);
                }
                while i < vers.len()
                    invariant
                        i <= vers@.len(),
                        vm == vers.deep_view(),
                        vm.len() == vers@.len(),
                        self@.versions_of(key@) == vm,
                        committed_record(vm, start_ts.0) == committed_record(
                            vm.skip(i as int),
                            start_ts.0,
                        ),
                    decreases vers@.len() - i,
                {
                    proof {
                        lemma_skip_step(vm, i as int);
                    }
                    let v = &vers[i];
                    if v.write.start_ts.0 == start_ts.0 {
                        return Some(v);
                    }
                    i = i + 1;
                }
                proof {
                    assert(vm.skip(i as int).len() == 0);
                }
                None
            },
            None => None,
        }
    }

    /// Installs or replaces the lock on `key`.
    pub fn put_lock(&mut self, key: Vec<u8>, lock: Lock)
        requires
            old(self).inv(),
        ensures
            final(self).inv(),
            final(self)@.locks =~= old(self)@.locks.insert(key@, lock.deep_view()),
            final(self)@.writes == old(self)@.writes,
    {
        match self.lock_index(&key) {
            Some(i) => {
                proof {
                    lemma_assoc_remove(self.locks@, i as int);
                }
                let _ = self.locks.remove(i);
            },
            None => {},
        }
        proof {
            lemma_assoc_push_fresh(self.locks@, (key, lock));
            assert(old(self)@.locks.remove(key@).insert(key@, lock.deep_view()) =~= old(
                self,
            )@.locks.insert(key@, lock.deep_view()));
        }
        self.locks.push((key, lock));
    }

    /// Applies a staged write batch: each entry installs its lock.
    pub fn apply(&mut self, modifies: Vec<Modify>)
        requires
            old(self).inv(),
        ensures
            final(self).inv(),
            final(self)@ == apply_modifies(old(self)@, modifies.deep_view()),
    {
        let ghost m0 = old(self)@;
        let ghost all = modifies.deep_view();
        let mut rest = modifies;
        while rest.len() > 0
            invariant
                self.inv(),
                apply_modifies(m0, all) == apply_modifies(self@, rest.deep_view()),
            decreases rest@.len(),
        {
            let ghost before = rest.deep_view();
            let m = rest.remove(0);
            proof {
                assert(rest.deep_view() =~= before.skip(1));
                assert(m.deep_view() == before[0]);
            }
            match m {
                Modify::PutLock { key, lock } => {
                    self.put_lock(key, lock);
                },
            }
        }
        proof {
            assert(rest.deep_view().len() == 0);
        }
    }

    /// Promotes the lock installed by the transaction that started at
    /// `start_ts` into a committed version at `commit_ts`. Fails when no such
    /// lock is held, or when `commit_ts` does not advance past the key's
    /// newest committed version.
    pub fn commit(&mut self, key: &Vec<u8>, start_ts: TimeStamp, commit_ts: TimeStamp) -> (r:
        Result<(), Error>)
        requires
            old(self).inv(),
        ensures
            final(self).inv(),
            match old(self)@.lock_of(key@) {
                Some(l) => {
                    if l.ts != start_ts.0 {
                        &&& r matches Err(e) && e.deep_view() == (ErrorModel::TxnLockNotFound {
                            start_ts: start_ts.0,
                            commit_ts: commit_ts.0,
                            key: key@,
                        })
                        &&& final(self)@ == old(self)@
                    } else if old(self)@.versions_of(key@).len() > 0 && old(self)@.versions_of(
                        key@,
                    )[0].commit_ts >= commit_ts.0 {
                        &&& r is Err
                        &&& final(self)@ == old(self)@
                    } else {
                        &&& r is Ok
                        &&& final(self)@.locks =~= commit_model(old(self)@, key@, commit_ts.0, l).locks
                        &&& final(self)@.writes =~= commit_model(old(self)@, key@, commit_ts.0, l).writes
                    }
                },
                None => {
                    &&& r matches Err(e) && e.deep_view() == (ErrorModel::TxnLockNotFound {
                        start_ts: start_ts.0,
                        commit_ts: commit_ts.0,
                        key: key@,
                    })
                    &&& final(self)@ == old(self)@
                },
            },
    {
        let li = match self.lock_index(key) {
            Some(li) => li,
            None => {
                return Err(
                    Error::TxnLockNotFound { start_ts, commit_ts, key: clone_bytes(key) },
                );
            },
        };
        if self.locks[li].1.ts.0 != start_ts.0 {
            return Err(Error::TxnLockNotFound { start_ts, commit_ts, key: clone_bytes(key) });
        }
        let wi = self.versions_index(key);
        if let Some(wi) = wi {
            let vers = &self.writes[wi].1;
            if vers.len() > 0 && vers[0].commit_ts.0 >= commit_ts.0 {
                return Err(Error::Other("commit timestamp must advance".to_owned()));
            }
        }
        proof {
            lemma_assoc_remove(self.locks@, li as int);
        }
        let (_, lock) = self.locks.remove(li);
        let ghost l = lock.deep_view();
        let write_type = match lock.lock_type {
            LockType::Put => WriteType::Put,
            LockType::Delete => WriteType::Delete,
            LockType::Lock => WriteType::Lock,
        };
        let version = Version {
            commit_ts,
            write: Write {
                write_type,
                start_ts: lock.ts,
                short_value: lock.short_value,
                gc_fence: None,
            },
        };
        match wi {
            Some(wi) => {
                proof {
                    lemma_assoc_remove(self.writes@, wi as int);
                }
                let mut entry = self.writes.remove(wi);
                let ghost old_vers = entry.1.deep_view();
                entry.1.insert(0, version);
                proof {
                    assert(entry.1.deep_view() =~= seq![
                        VersionModel { commit_ts: commit_ts.0, write: write_of_lock(l) },
                    ] + old_vers);
                    lemma_assoc_push_fresh(self.writes@, entry);
                    assert(old(self)@.writes.remove(key@).insert(key@, entry.1.deep_view())
                        =~= old(self)@.writes.insert(key@, entry.1.deep_view()));
                }
                self.writes.push(entry);
            },
            None => {
                let mut vers: Vec<Version> = Vec::new();
                vers.push(version);
                let entry = (clone_bytes(key), vers);
                proof {
                    assert(entry.1.deep_view() =~= seq![
                        VersionModel { commit_ts: commit_ts.0, write: write_of_lock(l) },
                    ] + old(self)@.versions_of(key@));
                    lemma_assoc_push_fresh(self.writes@, entry);
                }
                self.writes.push(entry);
            },
        }
        Ok(())
    }

    /// Reads the value of `key` visible at `ts` from the committed versions.
    pub fn get(&self, key: &Vec<u8>, ts: TimeStamp) -> (r: Option<&Vec<u8>>)
        ensures
            match r {
                Some(b) => read_value(self@, key@, ts.0) == Some(b@),
                None => read_value(self@, key@, ts.0) is None,
            },
    {
        match self.get_write_version(key, ts) {
            Some(v) => match &v.write.short_value {
                Some(b) => Some(b),
                None => None,
            },
            None => None,
        }
    }
}

/// A read-only view of the store bound to a transaction's start timestamp:
/// the snapshot-reader interface the prewrite engine works against.
pub struct SnapshotReader<'a> {
    pub store: &'a MvccStore,
    pub start_ts: TimeStamp,
}

impl<'a> SnapshotReader<'a> {
    /// The state this reader observes.
    pub open spec fn model(self) -> StoreModel {
        self.store@
    }

    pub fn new(store: &'a MvccStore, start_ts: TimeStamp) -> (r: Self)
        ensures
            r.store == store,
            r.start_ts == start_ts,
    {
        SnapshotReader { store, start_ts }
    }

    /// The current lock on `key`, if any.
    pub fn get_lock(&self, key: &Vec<u8>) -> (r: Option<&Lock>)
        ensures
            match r {
                Some(l) => self.model().lock_of(key@) == Some(l.deep_view()),
                None => self.model().lock_of(key@) is None,
            },
    {
        self.store.get_lock(key)
    }

    /// The latest write for `key` visible at `ts` (see [`resolve_read`]).
    pub fn get_write(&self, key: &Vec<u8>, ts: TimeStamp) -> (r: Option<&Write>)
        ensures
            match r {
                Some(w) => match resolve_read(self.model().versions_of(key@), ts.0) {
                    Some(v) => v.write == w.deep_view(),
                    None => false,
                },
                None => resolve_read(self.model().versions_of(key@), ts.0) is None,
            },
    {
        self.store.get_write(key, ts)
    }

    /// As [`Self::get_write`], together with the version's commit timestamp.
    pub fn get_write_version(&self, key: &Vec<u8>, ts: TimeStamp) -> (r: Option<&Version>)
        ensures
            match r {
                Some(v) => resolve_read(self.model().versions_of(key@), ts.0) == Some(
                    v.deep_view(),
                ),
                None => resolve_read(self.model().versions_of(key@), ts.0) is None,
            },
    {
        self.store.get_write_version(key, ts)
    }

    /// The newest committed version of `key`, whatever its type.
    pub fn seek_latest(&self, key: &Vec<u8>) -> (r: Option<&Version>)
        ensures
            match r {
                Some(v) => self.model().latest_of(key@) == Some(v.deep_view()),
                None => self.model().latest_of(key@) is None,
            },
    {
        self.store.seek_latest(key)
    }

    /// The committed record left on `key` by the transaction that started at
    /// `start_ts`, if any.
    pub fn find_committed_record(&self, key: &Vec<u8>, start_ts: TimeStamp) -> (r: Option<
        &Version,
    >)
        ensures
            match r {
                Some(v) => committed_record(self.model().versions_of(key@), start_ts.0) == Some(
                    v.deep_view(),
                ),
                None => committed_record(self.model().versions_of(key@), start_ts.0) is None,
            },
    {
        self.store.find_committed_record(key, start_ts)
    }
}

/// The store after installing every staged lock of a batch, in order.
pub open spec fn apply_modifies(m: StoreModel, mods: Seq<ModifyModel>) -> StoreModel
    decreases mods.len(),
{
    if mods.len() == 0 {
        m
    } else {
        let next = match mods[0] {
            ModifyModel::PutLock { key, lock } => StoreModel {
                locks: m.locks.insert(key, lock),
                writes: m.writes,
            },
        };
        apply_modifies(next, mods.skip(1))
    }
}

// ------------------------------------------------------------------
// Association-list lemmas
// ------------------------------------------------------------------
pub proof fn lemma_skip_step<A>(s: Seq<A>, i: int)
    requires
        0 <= i < s.len(),
    ensures
        s.skip(i)[0] == s[i],
        s.skip(i).skip(1) =~= s.skip(i + 1),
        s.skip(i).len() == s.len() - i,
{
}

/// A front-to-back scan that finds `k` first at position `i` reads exactly
/// what the map view holds for `k`.
pub proof fn lemma_assoc_first_match<T: DeepView>(s: Seq<(Vec<u8>, T)>, k: Seq<u8>, i: int)
    requires
        0 <= i < s.len(),
        s[i].0@ == k,
        forall|j: int| 0 <= j < i ==> s[j].0@ != k,
    ensures
        assoc_map(s).contains_key(k),
        assoc_map(s)[k] == s[i].1.deep_view(),
    decreases i,
{
    if i == 0 {
    } else {
        assert(s.skip(1)[i - 1] == s[i]);
        assert(forall|j: int| 0 <= j < i - 1 ==> s.skip(1)[j] == s[j + 1]);
        lemma_assoc_first_match(s.skip(1), k, i - 1);
    }
}

/// A key no entry carries is absent from the map view.
pub proof fn lemma_assoc_no_match<T: DeepView>(s: Seq<(Vec<u8>, T)>, k: Seq<u8>)
    requires
        forall|j: int| 0 <= j < s.len() ==> s[j].0@ != k,
    ensures
        !assoc_map(s).contains_key(k),
    decreases s.len(),
{
    if s.len() == 0 {
    } else {
        assert(forall|j: int| 0 <= j < s.len() - 1 ==> s.skip(1)[j] == s[j + 1]);
        lemma_assoc_no_match(s.skip(1), k);
    }
}

/// Removing the (unique) entry of a key removes exactly that key from the
/// map view.
pub proof fn lemma_assoc_remove<T: DeepView>(s: Seq<(Vec<u8>, T)>, i: int)
    requires
        keys_unique(s),
        0 <= i < s.len(),
    ensures
        keys_unique(s.remove(i)),
        assoc_map(s.remove(i)) =~= assoc_map(s).remove(s[i].0@),
        forall|j: int| 0 <= j < s.remove(i).len() ==> s.remove(i)[j].0@ != s[i].0@,
    decreases i,
{
    let k = s[i].0@;
    if i == 0 {
        assert(s.remove(0) =~= s.skip(1));
        lemma_assoc_no_match_helper(s, k);
        assert(assoc_map(s).remove(k) =~= assoc_map(s.skip(1)).insert(
            k,
            s[0].1.deep_view(),
        ).remove(k));
        assert(!assoc_map(s.skip(1)).contains_key(k));
        assert(assoc_map(s.skip(1)).insert(k, s[0].1.deep_view()).remove(k) =~= assoc_map(
            s.skip(1),
        ));
    } else {
        assert(forall|j: int| 0 <= j < s.skip(1).len() ==> s.skip(1)[j] == s[j + 1]);
        lemma_assoc_remove(s.skip(1), i - 1);
        assert(s.remove(i).skip(1) =~= s.skip(1).remove(i - 1));
        assert(s.remove(i)[0] == s[0]);
        assert(s[0].0@ != k);
        assert(assoc_map(s.remove(i)) =~= assoc_map(s.skip(1)).remove(k).insert(
            s[0].0@,
            s[0].1.deep_view(),
        ));
        assert(assoc_map(s.skip(1)).remove(k).insert(s[0].0@, s[0].1.deep_view()) =~= assoc_map(
            s,
        ).remove(k));
    }
}

/// Helper for the base case of [`lemma_assoc_remove`]: with unique keys, the
/// tail never carries the head's key.
proof fn lemma_assoc_no_match_helper<T: DeepView>(s: Seq<(Vec<u8>, T)>, k: Seq<u8>)
    requires
        keys_unique(s),
        s.len() > 0,
        s[0].0@ == k,
    ensures
        !assoc_map(s.skip(1)).contains_key(k),
{
    assert(forall|j: int| 0 <= j < s.skip(1).len() ==> s.skip(1)[j] == s[j + 1]);
    lemma_assoc_no_match(s.skip(1), k);
}

/// Appending an entry whose key is fresh inserts it into the map view.
pub proof fn lemma_assoc_push_fresh<T: DeepView>(s: Seq<(Vec<u8>, T)>, e: (Vec<u8>, T))
    requires
        forall|j: int| 0 <= j < s.len() ==> s[j].0@ != e.0@,
    ensures
        assoc_map(s.push(e)) =~= assoc_map(s).insert(e.0@, e.1.deep_view()),
        keys_unique(s) ==> keys_unique(s.push(e)),
    decreases s.len(),
{
    if s.len() == 0 {
        assert(s.push(e)[0] == e);
        assert(s.push(e).skip(1) =~= Seq::<(Vec<u8>, T)>::empty());
        assert(assoc_map(Seq::<(Vec<u8>, T)>::empty()) =~= Map::<Seq<u8>, T::V>::empty());
        assert(assoc_map(s.push(e)) =~= Map::<Seq<u8>, T::V>::empty().insert(
            e.0@,
            e.1.deep_view(),
        ));
        assert(assoc_map(s) =~= Map::<Seq<u8>, T::V>::empty());
    } else {
        assert(forall|j: int| 0 <= j < s.skip(1).len() ==> s.skip(1)[j] == s[j + 1]);
        lemma_assoc_push_fresh(s.skip(1), e);
        assert(s.push(e).skip(1) =~= s.skip(1).push(e));
        assert(s.push(e)[0] == s[0]);
        assert(assoc_map(s.push(e)) =~= assoc_map(s.skip(1).push(e)).insert(
            s[0].0@,
            s[0].1.deep_view(),
        ));
        assert(s[0].0@ != e.0@);
        assert(assoc_map(s.skip(1)).insert(e.0@, e.1.deep_view()).insert(
            s[0].0@,
            s[0].1.deep_view(),
        ) =~= assoc_map(s).insert(e.0@, e.1.deep_view()));
    }
}

} // verus!
