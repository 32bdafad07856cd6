use editwheel::hash_content;
use editwheel::Record;
use editwheel::RecordEntry;
use editwheel::StreamHasher;

#[test]
fn test_hash_content() {
    let content = b"Hello, World!";
    let hash = hash_content(content);
    assert!(hash.starts_with("sha256="));
    let base64_part = hash.strip_prefix("sha256=").unwrap();
    assert!(!base64_part.contains('='), "Base64 should not have padding");
}

#[test]
fn test_record_parse() {
    let content = r#"test_package/__init__.py,sha256=abc123,100
test_package-1.0.0.dist-info/METADATA,sha256=def456,200
test_package-1.0.0.dist-info/RECORD,,"#;

    let record = Record::parse(content).unwrap();
    assert_eq!(record.entries.len(), 3);
    assert_eq!(record.entries[0].path, "test_package/__init__.py");
    assert_eq!(record.entries[0].hash, Some("sha256=abc123".to_string()));
    assert_eq!(record.entries[0].size, Some(100));
    assert!(record.entries[2].hash.is_none());
}

#[test]
fn test_record_roundtrip() {
    let content = r#"test/__init__.py,sha256=abc,10
test/RECORD,,"#;

    let record = Record::parse(content).unwrap();
    let serialized = record.serialize();
    let reparsed = Record::parse(&serialized).unwrap();

    assert_eq!(record.entries.len(), reparsed.entries.len());
    assert_eq!(record.entries[0].path, reparsed.entries[0].path);
}

#[test]
fn hash_content_gives_the_known_digests() {
    assert_eq!(hash_content(b"Hello, World!"), "sha256=3_1gIbsr1bCvZ2KQgJ7DpTGR3YHH9wpLKGiKNiGCmG8");
    assert_eq!(hash_content(b""), "sha256=47DEQpj8HBSa-_TImW-5JCeuQeRkm5NMpJWZG3hSuFU");
    assert_eq!(hash_content(b"test content"), "sha256=auinVVUgn9bEQVfArtgBbnY_9DWhnPGG92hjFAFD_3I");
    for content in [&b""[..], &b"a"[..], &[0xffu8; 1000][..]] {
        let hash = hash_content(content);
        assert_eq!(hash.len(), 50);
        assert!(hash[7..].chars().all(|c| c.is_ascii_alphanumeric() || c == '-' || c == '_'));
    }
}

#[test]
fn a_hash_taken_in_pieces_is_that_of_the_whole() {
    let mut hasher = StreamHasher::new();
    hasher.update(b"Hello, ");
    hasher.update(b"");
    hasher.update(b"World!");
    assert_eq!(hasher.finish(), hash_content(b"Hello, World!"));
    assert_eq!(StreamHasher::new().finish(), hash_content(b""));
}

#[test]
fn serialize_writes_one_row_per_entry() {
    let record = Record {
        entries: vec![
            RecordEntry::new("a/b.py".to_string(), Some("sha256=abc".to_string()), Some(10)),
            RecordEntry::new("c.py".to_string(), Some("sha256=def".to_string()), Some(0)),
            RecordEntry::new("sized.bin".to_string(), None, Some(18446744073709551615)),
            RecordEntry::new("pkg-1.0.dist-info/RECORD".to_string(), None, None),
        ],
    };
    assert_eq!(
        record.serialize(),
        "a/b.py,sha256=abc,10\nc.py,sha256=def,0\nsized.bin,,18446744073709551615\npkg-1.0.dist-info/RECORD,,\n"
    );
}

#[test]
fn paths_with_commas_and_quotes_survive_a_round_trip() {
    let record = Record {
        entries: vec![
            RecordEntry::new("we,ird \"name\".py".to_string(), Some("sha256=x".to_string()), Some(7)),
            RecordEntry::new("plain.py".to_string(), None, None),
        ],
    };
    let text = record.serialize();
    assert_eq!(text, "\"we,ird \"\"name\"\".py\",sha256=x,7\nplain.py,,\n");
    let reparsed = Record::parse(&text).unwrap();
    assert_eq!(reparsed.entries.len(), 2);
    assert_eq!(reparsed.entries[0].path, "we,ird \"name\".py");
    assert_eq!(reparsed.entries[0].hash, Some("sha256=x".to_string()));
    assert_eq!(reparsed.entries[0].size, Some(7));
    assert_eq!(reparsed.entries[1].path, "plain.py");
    assert_eq!(reparsed.entries[1].hash, None);
    assert_eq!(reparsed.entries[1].size, None);
}

#[test]
fn rows_of_any_width_are_read() {
    let record = Record::parse("only-path\nwith-hash,sha256=h\nfull,sha256=h,12,extra\n,sha256=nopath,3\n").unwrap();
    assert_eq!(record.entries.len(), 3);
    assert_eq!(record.entries[0].path, "only-path");
    assert_eq!(record.entries[0].hash, None);
    assert_eq!(record.entries[0].size, None);
    assert_eq!(record.entries[1].hash, Some("sha256=h".to_string()));
    assert_eq!(record.entries[1].size, None);
    assert_eq!(record.entries[2].size, Some(12));
}

#[test]
fn a_size_that_is_no_number_is_absent() {
    let rows = vec![
        vec!["a".to_string(), "".to_string(), "12x".to_string()],
        vec!["b".to_string(), "".to_string(), "+7".to_string()],
        vec!["c".to_string(), "".to_string(), "-7".to_string()],
        vec!["d".to_string(), "".to_string(), "18446744073709551616".to_string()],
        vec!["e".to_string(), "".to_string(), "18446744073709551615".to_string()],
        vec!["f".to_string(), "".to_string(), "007".to_string()],
        vec!["g".to_string(), "".to_string(), "+".to_string()],
        vec!["h".to_string(), "".to_string(), " 7".to_string()],
    ];
    let record = Record::from_rows(&rows);
    let sizes: Vec<Option<u64>> = record.entries.iter().map(|e| e.size).collect();
    assert_eq!(
        sizes,
        vec![None, Some(7), None, None, Some(18446744073709551615), Some(7), None, None]
    );
}

#[test]
fn rows_and_entries_agree() {
    let record = Record {
        entries: vec![
            RecordEntry::new("a".to_string(), Some("sha256=h".to_string()), Some(42)),
            RecordEntry::new("b".to_string(), None, None),
        ],
    };
    let rows = record.to_rows();
    assert_eq!(
        rows,
        vec![
            vec!["a".to_string(), "sha256=h".to_string(), "42".to_string()],
            vec!["b".to_string(), "".to_string(), "".to_string()],
        ]
    );
    let back = Record::from_rows(&rows);
    assert_eq!(back.entries.len(), 2);
    assert_eq!(back.entries[0].path, "a");
    assert_eq!(back.entries[0].hash, Some("sha256=h".to_string()));
    assert_eq!(back.entries[0].size, Some(42));
    assert_eq!(back.entries[1].hash, None);
}

#[test]
fn find_gives_the_first_entry_with_the_path() {
    let mut record = Record {
        entries: vec![
            RecordEntry::new("a".to_string(), Some("first".to_string()), Some(1)),
            RecordEntry::new("b".to_string(), None, None),
            RecordEntry::new("a".to_string(), Some("second".to_string()), Some(2)),
        ],
    };
    assert_eq!(record.find("a").unwrap().hash, Some("first".to_string()));
    assert!(record.find("b").unwrap().hash.is_none());
    assert!(record.find("c").is_none());
    record.find_mut("a").unwrap().size = Some(9);
    assert_eq!(record.entries[0].size, Some(9));
    assert_eq!(record.entries[2].size, Some(2));
    assert!(record.find_mut("zzz").is_none());
}
