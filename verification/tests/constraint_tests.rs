use tikv::errors::Error;
use tikv::prewrite::check_existence;
use tikv::store::{MvccStore, SnapshotReader, Version};
use tikv::types::{TimeStamp, Write, WriteType};

#[test]
fn test_check_data_constraint() {
    // one committed version: a put by the transaction started at 2,
    // committed at 5
    let mut engine = MvccStore::new();
    engine.writes.push((
        b"a".to_vec(),
        vec![Version {
            commit_ts: TimeStamp::new(5),
            write: Write::new(WriteType::Put, TimeStamp::new(2), None),
        }],
    ));
    let reader = SnapshotReader::new(&engine, TimeStamp::new(3));

    struct Case {
        expected: Result<(), Error>,
        should_not_exist: bool,
        write: Write,
        write_commit_ts: TimeStamp,
        key: Vec<u8>,
    }

    let cases = vec![
        Case {
            // should skip the check when `should_not_exist` is `false`
            expected: Ok(()),
            should_not_exist: false,
            write: Write::new(WriteType::Put, TimeStamp::new(3), None),
            write_commit_ts: TimeStamp::zero(),
            key: b"a".to_vec(),
        },
        Case {
            // should skip the check when `write_type` is `delete`
            expected: Ok(()),
            should_not_exist: true,
            write: Write::new(WriteType::Delete, TimeStamp::new(3), None),
            write_commit_ts: TimeStamp::zero(),
            key: b"a".to_vec(),
        },
        Case {
            // should detect conflict `Put`
            expected: Err(Error::AlreadyExist {
                key: b"a".to_vec(),
                existing_start_ts: TimeStamp::new(3),
            }),
            should_not_exist: true,
            write: Write::new(WriteType::Put, TimeStamp::new(3), None),
            write_commit_ts: TimeStamp::zero(),
            key: b"a".to_vec(),
        },
        Case {
            // should detect an older version when the current write type is
            // `Rollback`
            expected: Err(Error::AlreadyExist {
                key: b"a".to_vec(),
                existing_start_ts: TimeStamp::new(2),
            }),
            should_not_exist: true,
            write: Write::new(WriteType::Rollback, TimeStamp::new(3), None),
            write_commit_ts: TimeStamp::new(6),
            key: b"a".to_vec(),
        },
        Case {
            // should detect an older version when the current write type is
            // `Lock`
            expected: Err(Error::AlreadyExist {
                key: b"a".to_vec(),
                existing_start_ts: TimeStamp::new(2),
            }),
            should_not_exist: true,
            write: Write::new(WriteType::Lock, TimeStamp::new(10), None),
            write_commit_ts: TimeStamp::new(15),
            key: b"a".to_vec(),
        },
    ];

    for Case { expected, should_not_exist, write, write_commit_ts, key } in cases {
        let result = check_existence(&reader, should_not_exist, &write, write_commit_ts, &key);
        assert_eq!(format!("{:?}", expected), format!("{:?}", result));
    }
}

#[test]
fn test_check_data_constraint_fenced_write() {
    // a fence-marked record never counts as the current value
    let engine = MvccStore::new();
    let reader = SnapshotReader::new(&engine, TimeStamp::new(3));
    let mut write = Write::new(WriteType::Put, TimeStamp::new(3), None);
    write.gc_fence = Some(TimeStamp::new(7));
    let result = check_existence(&reader, true, &write, TimeStamp::new(5), &b"a".to_vec());
    assert_eq!(result, Ok(()));
}

#[test]
fn test_check_data_constraint_no_older_version() {
    // a rollback marker with nothing beneath it means the key is absent
    let engine = MvccStore::new();
    let reader = SnapshotReader::new(&engine, TimeStamp::new(3));
    let write = Write::new(WriteType::Rollback, TimeStamp::new(3), None);
    let result = check_existence(&reader, true, &write, TimeStamp::new(6), &b"a".to_vec());
    assert_eq!(result, Ok(()));
}
