use tikv::collation::{next_utf8_char, trim_end_padding};
use tikv::paths::{normalize_path, PathComponent};
use tikv::store::{MvccStore, Version};
use tikv::types::{TimeStamp, Write, WriteType};

fn normals(parts: &[&str]) -> Vec<PathComponent> {
    parts
        .iter()
        .map(|p| PathComponent::Normal(p.as_bytes().to_vec()))
        .collect()
}

#[test]
fn test_normalize_path_drops_cur_dir() {
    let mut comps = vec![PathComponent::RootDir];
    comps.push(PathComponent::Normal(b"a".to_vec()));
    comps.push(PathComponent::CurDir);
    comps.push(PathComponent::Normal(b"b".to_vec()));
    let mut expect = vec![PathComponent::RootDir];
    expect.append(&mut normals(&["a", "b"]));
    assert_eq!(normalize_path(&comps), expect);
}

#[test]
fn test_normalize_path_parent_cancels() {
    let comps = vec![
        PathComponent::Normal(b"a".to_vec()),
        PathComponent::Normal(b"b".to_vec()),
        PathComponent::ParentDir,
        PathComponent::Normal(b"c".to_vec()),
    ];
    assert_eq!(normalize_path(&comps), normals(&["a", "c"]));
}

#[test]
fn test_normalize_path_parent_at_root() {
    // the root swallows no parent reference: it is kept
    let comps = vec![PathComponent::RootDir, PathComponent::ParentDir];
    assert_eq!(
        normalize_path(&comps),
        vec![PathComponent::RootDir, PathComponent::ParentDir]
    );
}

#[test]
fn test_normalize_path_leading_parents() {
    let comps = vec![
        PathComponent::ParentDir,
        PathComponent::Normal(b"a".to_vec()),
    ];
    assert_eq!(
        normalize_path(&comps),
        vec![PathComponent::ParentDir, PathComponent::Normal(b"a".to_vec())]
    );
}

#[test]
fn test_trim_end_padding() {
    assert_eq!(trim_end_padding(b"abc   "), b"abc");
    assert_eq!(trim_end_padding(b"abc"), b"abc");
    assert_eq!(trim_end_padding(b"   "), b"");
    assert_eq!(trim_end_padding(b"a b "), b"a b");
}

#[test]
fn test_next_utf8_char_decodes() {
    // one ASCII byte
    let (c, rest) = next_utf8_char(b"ab").unwrap();
    assert_eq!(c, 'a');
    assert_eq!(rest, b"b");
    // two bytes
    let bytes = "\u{e9}x".as_bytes();
    let (c, rest) = next_utf8_char(bytes).unwrap();
    assert_eq!(c, '\u{e9}');
    assert_eq!(rest, b"x");
    // three bytes
    let bytes = "\u{4e2d}".as_bytes();
    let (c, rest) = next_utf8_char(bytes).unwrap();
    assert_eq!(c, '\u{4e2d}');
    assert!(rest.is_empty());
    // four bytes
    let bytes = "\u{1f603}".as_bytes();
    let (c, rest) = next_utf8_char(bytes).unwrap();
    assert_eq!(c, '\u{1f603}');
    assert!(rest.is_empty());
}

#[test]
fn test_next_utf8_char_rejects_malformed() {
    assert!(next_utf8_char(b"").is_none());
    // stray continuation byte
    assert!(next_utf8_char(&[0x80]).is_none());
    // overlong two-byte lead
    assert!(next_utf8_char(&[0xC0, 0x80]).is_none());
    // truncated sequence
    assert!(next_utf8_char(&[0xE4, 0xB8]).is_none());
    // surrogate encoding
    assert!(next_utf8_char(&[0xED, 0xA0, 0x80]).is_none());
}

#[test]
fn test_timestamp_neighbours() {
    assert_eq!(TimeStamp::new(5).prev(), TimeStamp::new(4));
    assert_eq!(TimeStamp::new(0).prev(), TimeStamp::new(0));
    assert_eq!(TimeStamp::new(5).next(), TimeStamp::new(6));
    assert!(TimeStamp::zero().is_zero());
}

#[test]
fn test_store_read_skips_markers() {
    let mut store = MvccStore::new();
    store.writes.push((
        b"k".to_vec(),
        vec![
            Version {
                commit_ts: TimeStamp::new(9),
                write: Write::new(WriteType::Lock, TimeStamp::new(8), None),
            },
            Version {
                commit_ts: TimeStamp::new(7),
                write: Write::new(WriteType::Rollback, TimeStamp::new(6), None),
            },
            Version {
                commit_ts: TimeStamp::new(5),
                write: Write::new(WriteType::Put, TimeStamp::new(4), Some(b"v".to_vec())),
            },
        ],
    ));
    // markers carry no value: the read falls through to the put
    assert_eq!(
        store.get(&b"k".to_vec(), TimeStamp::new(10)).map(|v| v.as_slice()),
        Some(b"v".as_slice())
    );
    // a tombstone ends the search
    store.writes[0].1.insert(
        0,
        Version {
            commit_ts: TimeStamp::new(11),
            write: Write::new(WriteType::Delete, TimeStamp::new(10), None),
        },
    );
    assert_eq!(store.get(&b"k".to_vec(), TimeStamp::new(12)), None);
    // but reads below the tombstone still see the put
    assert_eq!(
        store.get(&b"k".to_vec(), TimeStamp::new(10)).map(|v| v.as_slice()),
        Some(b"v".as_slice())
    );
}
