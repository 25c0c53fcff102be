use tikv::errors::Error;
use tikv::flush::{Flush, WriteResult};
use tikv::store::MvccStore;
use tikv::types::{Assertion, AssertionLevel, Mutation, TimeStamp};

fn flush_put_impl_with_assertion(
    engine: &mut MvccStore,
    key: &[u8],
    value: &[u8],
    pk: &[u8],
    start_ts: u64,
    generation: u64,
    should_not_exist: bool,
    assertion: Assertion,
    assertion_level: AssertionLevel,
) -> Result<WriteResult, Error> {
    let m = if should_not_exist {
        Mutation::Insert((key.to_vec(), value.to_vec()), assertion)
    } else {
        Mutation::Put((key.to_vec(), value.to_vec()), assertion)
    };
    let cmd = Flush::new(
        TimeStamp::new(start_ts),
        pk.to_vec(),
        vec![m],
        generation,
        3000,
        assertion_level,
    );
    cmd.process_write(engine)
}

fn flush_put_impl(
    engine: &mut MvccStore,
    key: &[u8],
    value: &[u8],
    pk: &[u8],
    start_ts: u64,
    generation: u64,
    should_not_exist: bool,
) -> Result<WriteResult, Error> {
    flush_put_impl_with_assertion(
        engine,
        key,
        value,
        pk,
        start_ts,
        generation,
        should_not_exist,
        Assertion::Unset,
        AssertionLevel::Off,
    )
}

fn must_flush_put(
    engine: &mut MvccStore,
    key: &[u8],
    value: &[u8],
    pk: &[u8],
    start_ts: u64,
    generation: u64,
) {
    let res = flush_put_impl(engine, key, value, pk, start_ts, generation, false).unwrap();
    assert!(res.results.iter().all(|r| r.is_ok()));
    engine.apply(res.modifies);
}

fn must_flush_put_with_assertion(
    engine: &mut MvccStore,
    key: &[u8],
    value: &[u8],
    pk: &[u8],
    start_ts: u64,
    generation: u64,
    assertion: Assertion,
) {
    let res = flush_put_impl_with_assertion(
        engine,
        key,
        value,
        pk,
        start_ts,
        generation,
        false,
        assertion,
        AssertionLevel::Strict,
    );
    assert!(res.is_ok());
    let res = res.unwrap();
    assert!(res.results.iter().all(|r| r.is_ok()));
    engine.apply(res.modifies);
}

fn must_flush_put_err(
    engine: &mut MvccStore,
    key: &[u8],
    value: &[u8],
    pk: &[u8],
    start_ts: u64,
    generation: u64,
) -> Error {
    let res = flush_put_impl(engine, key, value, pk, start_ts, generation, false);
    assert!(res.is_err());
    res.err().unwrap()
}

fn must_flush_insert_err(
    engine: &mut MvccStore,
    key: &[u8],
    value: &[u8],
    pk: &[u8],
    start_ts: u64,
    generation: u64,
) -> Error {
    match flush_put_impl(engine, key, value, pk, start_ts, generation, true) {
        Err(e) => e,
        Ok(wr) => wr
            .results
            .into_iter()
            .find_map(|r| r.err())
            .expect("expected a failed mutation"),
    }
}

fn must_locked(engine: &mut MvccStore, key: &[u8], start_ts: u64) {
    let lock = engine.get_lock(&key.to_vec()).expect("key should be locked");
    assert_eq!(lock.ts, TimeStamp::new(start_ts));
}

fn must_commit(engine: &mut MvccStore, key: &[u8], start_ts: u64, commit_ts: u64) {
    engine
        .commit(&key.to_vec(), TimeStamp::new(start_ts), TimeStamp::new(commit_ts))
        .unwrap();
}

fn must_get(engine: &mut MvccStore, key: &[u8], ts: u64, expect: &[u8]) {
    let got = engine.get(&key.to_vec(), TimeStamp::new(ts));
    assert_eq!(got.map(|v| v.as_slice()), Some(expect));
}

#[test]
fn test_flush() {
    let mut engine = MvccStore::new();
    let k = b"key";
    let v = b"value";
    let start_ts = 1;
    must_flush_put(&mut engine, k, v, k, start_ts, 1);
    must_locked(&mut engine, k, start_ts);
    must_commit(&mut engine, k, start_ts, start_ts + 1);
    must_get(&mut engine, k, start_ts + 1, v);
}

#[test]
fn test_flush_overwrite() {
    let mut engine = MvccStore::new();
    let k = b"key";
    let v = b"value";
    must_flush_put(&mut engine, k, v, k, 1, 1);
    let v2 = b"value2";
    must_flush_put(&mut engine, k, v2, k, 1, 2);
    must_commit(&mut engine, k, 1, 2);
    must_get(&mut engine, k, 3, v2);
}

#[test]
fn test_flush_out_of_order() {
    let mut engine = MvccStore::new();
    let k = b"key";
    let v = b"value";

    // generation == 0 will be rejected
    let err = must_flush_put_err(&mut engine, k, v, k, 1, 0);
    assert!(
        matches!(&err, Error::Other(s) if s.contains("generation should be greater than 0"))
    );

    must_flush_put(&mut engine, k, v, k, 1, 2);
    must_locked(&mut engine, k, 1);

    // the following flush should have no effect
    let v2 = b"value2";
    must_flush_put(&mut engine, k, v2, k, 1, 1);
    must_locked(&mut engine, k, 1);
    must_commit(&mut engine, k, 1, 2);
    must_get(&mut engine, k, 3, v);
}

#[test]
fn test_flushed_existence_check() {
    let mut engine = MvccStore::new();
    let k = b"key";
    let v = b"value";
    must_flush_put(&mut engine, k, v, k, 1, 1);
    must_locked(&mut engine, k, 1);
    let err = must_flush_insert_err(&mut engine, k, v, k, 1, 2);
    assert!(matches!(
        &err,
        Error::AlreadyExist { key, existing_start_ts }
            if key.as_slice() == k && *existing_start_ts == TimeStamp::new(1)
    ));
    must_commit(&mut engine, k, 1, 2);
    let err = must_flush_insert_err(&mut engine, k, v, k, 3, 1);
    assert!(matches!(
        &err,
        Error::AlreadyExist { key, existing_start_ts }
            if key.as_slice() == k && *existing_start_ts == TimeStamp::new(1)
    ));
}

#[test]
fn test_flush_overwrite_assertion() {
    let mut engine = MvccStore::new();
    let k = b"key";
    let v = b"value";
    must_flush_put_with_assertion(&mut engine, k, v, k, 1, 1, Assertion::NotExist);
    must_locked(&mut engine, k, 1);
    let v2 = b"value2";
    must_flush_put_with_assertion(&mut engine, k, v2, k, 1, 2, Assertion::Exist);
    must_commit(&mut engine, k, 1, 2);
    must_get(&mut engine, k, 3, v2);
}

#[test]
fn test_flush_same_generation_is_idempotent() {
    // repeating one flush with the same generation changes nothing
    let mut engine = MvccStore::new();
    let k = b"key";
    let v = b"value";
    must_flush_put(&mut engine, k, v, k, 1, 1);
    let res = flush_put_impl(&mut engine, k, b"other", k, 1, 1, false).unwrap();
    // the retry is absorbed: nothing staged, nothing reported
    assert!(res.modifies.is_empty());
    assert!(res.results.is_empty());
    engine.apply(res.modifies);
    must_commit(&mut engine, k, 1, 2);
    must_get(&mut engine, k, 3, v);
}

#[test]
fn test_flush_generation_zero_stages_nothing() {
    // the rejection comes before any per-key processing
    let mut engine = MvccStore::new();
    let err = must_flush_put_err(&mut engine, b"key", b"value", b"key", 1, 0);
    assert!(matches!(err, Error::Other(_)));
    assert!(engine.get_lock(&b"key".to_vec()).is_none());
}

#[test]
fn test_flush_write_conflict_aborts() {
    // a commit after our start timestamp by another transaction aborts
    let mut engine = MvccStore::new();
    let k = b"key";
    must_flush_put(&mut engine, k, b"value", k, 10, 1);
    must_commit(&mut engine, k, 10, 11);
    let err = must_flush_put_err(&mut engine, k, b"value2", k, 5, 1);
    assert!(matches!(
        &err,
        Error::WriteConflict { start_ts, conflict_commit_ts, .. }
            if *start_ts == TimeStamp::new(5) && *conflict_commit_ts == TimeStamp::new(11)
    ));
}

#[test]
fn test_flush_retry_after_commit_is_absorbed() {
    // a full retry of an already committed transaction reports success
    let mut engine = MvccStore::new();
    let k = b"key";
    must_flush_put(&mut engine, k, b"value", k, 1, 1);
    must_commit(&mut engine, k, 1, 2);
    let res = flush_put_impl(&mut engine, k, b"value", k, 1, 1, false).unwrap();
    assert!(res.modifies.is_empty());
    assert_eq!(res.results.len(), 1);
    assert!(res.results[0].is_ok());
}

#[test]
fn test_flush_meets_foreign_lock() {
    // a lock held by another transaction is reported per mutation
    let mut engine = MvccStore::new();
    let k = b"key";
    must_flush_put(&mut engine, k, b"value", k, 1, 1);
    let res = flush_put_impl(&mut engine, k, b"value2", k, 2, 1, false).unwrap();
    assert!(!res.results.is_empty());
    assert!(matches!(
        &res.results[0],
        Err(Error::KeyIsLocked { key, lock })
            if key.as_slice() == k && lock.ts == TimeStamp::new(1)
    ));
}

#[test]
fn test_flush_deferred_assertion_failure() {
    // the assertion failure is reported at the end, after the whole batch
    let mut engine = MvccStore::new();
    let k = b"key";
    let k2 = b"key2";
    must_flush_put(&mut engine, k, b"value", k, 1, 1);
    must_commit(&mut engine, k, 1, 2);
    let cmd = Flush::new(
        TimeStamp::new(5),
        k.to_vec(),
        vec![
            Mutation::Put((k.to_vec(), b"v1".to_vec()), Assertion::NotExist),
            Mutation::Put((k2.to_vec(), b"v2".to_vec()), Assertion::Unset),
        ],
        1,
        3000,
        AssertionLevel::Strict,
    );
    let err = cmd.process_write(&engine).err().expect("assertion should fail");
    assert!(matches!(
        &err,
        Error::AssertionFailed { key, assertion: Assertion::NotExist, existing_start_ts, .. }
            if key.as_slice() == k && *existing_start_ts == TimeStamp::new(1)
    ));
}

#[test]
fn test_flush_check_not_exists_stages_nothing() {
    let mut engine = MvccStore::new();
    let k = b"key";
    let cmd = Flush::new(
        TimeStamp::new(1),
        k.to_vec(),
        vec![Mutation::CheckNotExists(k.to_vec(), Assertion::Unset)],
        1,
        3000,
        AssertionLevel::Off,
    );
    let res = cmd.process_write(&engine).unwrap();
    assert!(res.modifies.is_empty());
    assert_eq!(res.results.len(), 1);
    assert!(res.results[0].is_ok());
    assert!(engine.get_lock(&k.to_vec()).is_none());
}

#[test]
fn test_write_bytes_counts_payload() {
    let cmd = Flush::new(
        TimeStamp::new(1),
        b"k".to_vec(),
        vec![
            Mutation::Put((b"key".to_vec(), b"value".to_vec()), Assertion::Unset),
            Mutation::Delete(b"gone".to_vec(), Assertion::Unset),
            Mutation::CheckNotExists(b"probe".to_vec(), Assertion::Unset),
        ],
        1,
        3000,
        AssertionLevel::Off,
    );
    // key+value bytes for the put, key bytes for the delete, nothing for
    // the existence probe
    assert_eq!(cmd.write_bytes(), 3 + 5 + 4);
}
