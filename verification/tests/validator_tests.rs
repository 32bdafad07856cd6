use std::io::Cursor;
use std::io::Write;

use editwheel::hash_content;
use editwheel::validate_wheel;
use editwheel::Record;
use editwheel::RecordEntry;
use editwheel::ValidationError;
use zip::write::SimpleFileOptions;
use zip::ZipArchive;
use zip::ZipWriter;

fn create_valid_wheel() -> (Vec<u8>, Record) {
    let mut buf = Cursor::new(Vec::new());
    let content = b"test content";
    let content_hash = hash_content(content);

    {
        let mut zip = ZipWriter::new(&mut buf);
        let options = SimpleFileOptions::default();

        zip.start_file("test.py", options).unwrap();
        zip.write_all(content).unwrap();

        zip.start_file("pkg-1.0.dist-info/RECORD", options).unwrap();
        zip.write_all(b"").unwrap();

        zip.finish().unwrap();
    }

    let record = Record {
        entries: vec![
            RecordEntry::new("test.py".to_string(), Some(content_hash), Some(content.len() as u64)),
            RecordEntry::new("pkg-1.0.dist-info/RECORD".to_string(), None, None),
        ],
    };

    (buf.into_inner(), record)
}

#[test]
fn test_validate_valid_wheel() {
    let (wheel_data, record) = create_valid_wheel();
    let mut archive = ZipArchive::new(Cursor::new(wheel_data)).unwrap();

    let result = validate_wheel(&mut archive, &record).unwrap();
    assert!(result.is_valid());
}

#[test]
fn test_validate_hash_mismatch() {
    let (wheel_data, mut record) = create_valid_wheel();
    record.entries[0].hash = Some("sha256=wronghash".to_string());

    let mut archive = ZipArchive::new(Cursor::new(wheel_data)).unwrap();
    let result = validate_wheel(&mut archive, &record).unwrap();

    assert!(!result.is_valid());
    assert_eq!(result.errors.len(), 1);
    matches!(&result.errors[0], ValidationError::HashMismatch { .. });
}

#[test]
fn a_mismatch_names_both_hashes() {
    let (wheel_data, mut record) = create_valid_wheel();
    record.entries[0].hash = Some("sha256=WRONG".to_string());
    let mut archive = ZipArchive::new(Cursor::new(wheel_data)).unwrap();
    let result = validate_wheel(&mut archive, &record).unwrap();
    assert!(!result.is_valid());
    match &result.errors[0] {
        ValidationError::HashMismatch { path, expected, actual } => {
            assert_eq!(path, "test.py");
            assert_eq!(expected, "sha256=WRONG");
            assert_eq!(actual, "sha256=auinVVUgn9bEQVfArtgBbnY_9DWhnPGG92hjFAFD_3I");
        }
        other => panic!("unexpected: {:?}", other),
    }
}

#[test]
fn missing_and_extra_files_are_found() {
    let mut buf = Cursor::new(Vec::new());
    {
        let mut zip = ZipWriter::new(&mut buf);
        let options = SimpleFileOptions::default();
        zip.add_directory("pkg/", options).unwrap();
        zip.start_file("pkg/b.py", options).unwrap();
        zip.write_all(b"b").unwrap();
        zip.start_file("pkg/a.py", options).unwrap();
        zip.write_all(b"a").unwrap();
        zip.start_file("unhashed.py", options).unwrap();
        zip.write_all(b"u").unwrap();
        zip.start_file("pkg-1.0.dist-info/RECORD", options).unwrap();
        zip.write_all(b"").unwrap();
        zip.finish().unwrap();
    }
    let record = Record {
        entries: vec![
            RecordEntry::new("gone.py".to_string(), Some("sha256=x".to_string()), Some(1)),
            RecordEntry::new("pkg/a.py".to_string(), Some(hash_content(b"a")), Some(1)),
            RecordEntry::new("pkg/".to_string(), Some("sha256=dir".to_string()), None),
            RecordEntry::new("unhashed.py".to_string(), None, Some(1)),
            RecordEntry::new("pkg-1.0.dist-info/RECORD".to_string(), None, None),
        ],
    };
    let mut archive = ZipArchive::new(Cursor::new(buf.into_inner())).unwrap();
    let result = validate_wheel(&mut archive, &record).unwrap();
    let found: Vec<String> = result
        .errors
        .iter()
        .map(|e| match e {
            ValidationError::HashMismatch { path, .. } => format!("mismatch {}", path),
            ValidationError::MissingFile { path } => format!("missing {}", path),
            ValidationError::ExtraFile { path } => format!("extra {}", path),
        })
        .collect();
    assert_eq!(
        found,
        vec!["missing gone.py", "missing pkg/", "extra pkg/b.py"]
    );
}

#[test]
fn an_empty_archive_and_an_empty_record_agree() {
    let mut buf = Cursor::new(Vec::new());
    {
        let zip = ZipWriter::new(&mut buf);
        zip.finish().unwrap();
    }
    let mut archive = ZipArchive::new(Cursor::new(buf.into_inner())).unwrap();
    let result = validate_wheel(&mut archive, &Record { entries: Vec::new() }).unwrap();
    assert!(result.is_valid());
    assert!(result.errors.is_empty());
}

/// A wheel with one member whose content was damaged after it was packed,
/// so that it cannot be unpacked any more.
fn wheel_with_damaged_member() -> Vec<u8> {
    let mut buf = Cursor::new(Vec::new());
    {
        let mut zip = ZipWriter::new(&mut buf);
        let stored = SimpleFileOptions::default().compression_method(zip::CompressionMethod::Stored);
        zip.start_file("pkg/data.bin", stored).unwrap();
        zip.write_all(b"payload-payload").unwrap();
        zip.start_file("pkg/good.py", stored).unwrap();
        zip.write_all(b"good").unwrap();
        zip.finish().unwrap();
    }
    let mut bytes = buf.into_inner();
    let at = bytes.windows(15).position(|w| w == b"payload-payload").unwrap();
    bytes[at] ^= 0xff;
    bytes
}

#[test]
fn a_listed_member_that_cannot_be_unpacked_makes_the_validation_fail() {
    let mut archive = ZipArchive::new(Cursor::new(wheel_with_damaged_member())).unwrap();
    let record = Record {
        entries: vec![
            RecordEntry::new("pkg/good.py".to_string(), Some(hash_content(b"good")), Some(4)),
            RecordEntry::new("pkg/data.bin".to_string(), Some("sha256=any".to_string()), Some(15)),
        ],
    };
    assert!(validate_wheel(&mut archive, &record).is_err());
    assert!(validate_wheel(&mut archive, &record).is_err());
}

#[test]
fn a_member_that_is_not_listed_with_a_hash_is_not_unpacked() {
    let mut archive = ZipArchive::new(Cursor::new(wheel_with_damaged_member())).unwrap();
    let record = Record {
        entries: vec![
            RecordEntry::new("pkg/good.py".to_string(), Some(hash_content(b"good")), Some(4)),
            RecordEntry::new("pkg/data.bin".to_string(), None, Some(15)),
        ],
    };
    let result = validate_wheel(&mut archive, &record).unwrap();
    assert!(result.is_valid());
}

#[test]
fn only_the_record_file_of_the_wheel_may_go_unlisted() {
    let mut buf = Cursor::new(Vec::new());
    {
        let mut zip = ZipWriter::new(&mut buf);
        let options = SimpleFileOptions::default();
        for name in ["pkg-1.0.dist-info/RECORD", "pkg/RECORD", "pkg-1.0.dist-info/sub/RECORD", "RECORD"] {
            zip.start_file(name, options).unwrap();
            zip.write_all(b"").unwrap();
        }
        zip.finish().unwrap();
    }
    let mut archive = ZipArchive::new(Cursor::new(buf.into_inner())).unwrap();
    let result = validate_wheel(&mut archive, &Record { entries: Vec::new() }).unwrap();
    let extra: Vec<&str> = result
        .errors
        .iter()
        .map(|e| match e {
            ValidationError::ExtraFile { path } => path.as_str(),
            _ => "other",
        })
        .collect();
    assert_eq!(extra, vec!["pkg/RECORD", "pkg-1.0.dist-info/sub/RECORD", "RECORD"]);
}
