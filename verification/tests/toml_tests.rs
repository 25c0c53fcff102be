use tikv::toml_writer::{TomlLine, TomlWriter};

fn change(entries: &[(&str, &str)]) -> Vec<(Vec<u8>, Vec<u8>)> {
    entries
        .iter()
        .map(|(k, v)| (k.as_bytes().to_vec(), v.as_bytes().to_vec()))
        .collect()
}

#[test]
fn test_toml_writer() {
    let cfg = r#"
## commet1
log-level = "info"

[readpool.storage]
## commet2
normal-concurrency = 1
# high-concurrency = 1

## commet3
[readpool.coprocessor]
normal-concurrency = 1

[rocksdb.defaultcf]
compression-per-level = ["no", "no", "no", "no", "no", "no", "no"]

"#;
    let m = change(&[
        ("log-file", "log-file-name"),
        ("readpool.storage.xxx", "zzz"),
        ("readpool.storage.high-concurrency", "345"),
        ("readpool.coprocessor.normal-concurrency", "123"),
        ("not-in-file-config1.xxx.yyy", "100"),
        (
            "rocksdb.defaultcf.compression-per-level",
            "[\"no\", \"no\", \"lz4\", \"lz4\", \"lz4\", \"zstd\", \"zstd\"]",
        ),
    ]);

    let mut t = TomlWriter::new();
    t.write_change(cfg.as_bytes(), m);
    let expect = r#"
## commet1
log-level = "info"

log-file = log-file-name
[readpool.storage]
## commet2
normal-concurrency = 1
high-concurrency = 345

## commet3
xxx = zzz
[readpool.coprocessor]
normal-concurrency = 123

[rocksdb.defaultcf]
compression-per-level = ["no", "no", "lz4", "lz4", "lz4", "zstd", "zstd"]

[not-in-file-config1.xxx]
yyy = 100

"#;
    assert_eq!(expect.as_bytes(), t.finish().as_slice());
}

#[test]
fn test_update_empty_content() {
    // empty content
    let mut src = String::new();

    src = {
        let m = change(&[("readpool.storage.high-concurrency", "1")]);
        let mut t = TomlWriter::new();
        t.write_change(src.as_bytes(), m);
        String::from_utf8_lossy(t.finish().as_slice()).to_string()
    };
    // src should have valid toml format
    let toml_value: toml::Value = toml::from_str(src.as_str()).unwrap();
    assert_eq!(
        toml_value["readpool"]["storage"]["high-concurrency"].as_integer(),
        Some(1)
    );

    src = {
        let m = change(&[("readpool.storage.normal-concurrency", "2")]);
        let mut t = TomlWriter::new();
        t.write_change(src.as_bytes(), m);
        String::from_utf8_lossy(t.finish().as_slice()).to_string()
    };
    // src should have valid toml format
    let toml_value: toml::Value = toml::from_str(src.as_str()).unwrap();
    assert_eq!(
        toml_value["readpool"]["storage"]["normal-concurrency"].as_integer(),
        Some(2)
    );
}

#[test]
fn test_toml_line_parsing() {
    assert_eq!(
        TomlLine::parse(&b"[readpool.storage]".to_vec()),
        TomlLine::Table(b"readpool.storage".to_vec())
    );
    assert_eq!(
        TomlLine::parse(&b"normal-concurrency = 1".to_vec()),
        TomlLine::KvPair(b"normal-concurrency".to_vec())
    );
    assert_eq!(
        TomlLine::parse(&b"# high-concurrency = 1".to_vec()),
        TomlLine::KvPair(b"high-concurrency".to_vec())
    );
    assert_eq!(TomlLine::parse(&b"## commet1".to_vec()), TomlLine::Unknown);
    assert_eq!(TomlLine::parse(&b"".to_vec()), TomlLine::Unknown);
    assert_eq!(TomlLine::parse(&b"a = b = c".to_vec()), TomlLine::Unknown);
    assert_eq!(TomlLine::parse(&b"[.bad]".to_vec()), TomlLine::Unknown);
}

#[test]
fn test_toml_key_helpers() {
    assert_eq!(TomlLine::parse_key(&b"a . b".to_vec()), Some(b"a.b".to_vec()));
    assert_eq!(TomlLine::parse_key(&b"a!b".to_vec()), None);
    assert_eq!(TomlLine::parse_key(&b".a".to_vec()), None);
    assert_eq!(
        TomlLine::concat_key(&b"readpool".to_vec(), &b"storage".to_vec()),
        b"readpool.storage".to_vec()
    );
    assert_eq!(TomlLine::concat_key(&b"".to_vec(), &b"k".to_vec()), b"k".to_vec());
    assert_eq!(
        TomlLine::get_prefix(&b"readpool.storage.xxx".to_vec()),
        b"readpool.storage".to_vec()
    );
    assert_eq!(TomlLine::get_prefix(&b"bare".to_vec()), b"bare".to_vec());
    assert_eq!(
        TomlLine::encode_kv(&b"k".to_vec(), &b"v".to_vec()),
        b"k = v".to_vec()
    );
}
