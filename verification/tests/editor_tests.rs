use std::io::Cursor;
use std::io::Read;
use std::io::Write;

use editwheel::hash_content;
use editwheel::reader::dist_info_in;
use editwheel::ElfError;
use editwheel::FieldValue;
use editwheel::Record;
use editwheel::WheelEditor;
use editwheel::WheelError;
use editwheel::WheelReader;
use zip::write::SimpleFileOptions;
use zip::ZipArchive;
use zip::ZipWriter;

fn build_wheel(prefix: &str, metadata: &str, wheel_info: &str, payload: &[(&str, &[u8])]) -> Vec<u8> {
    let mut buf = Cursor::new(Vec::new());
    {
        let mut zip = ZipWriter::new(&mut buf);
        let options = SimpleFileOptions::default();
        let mut record = String::new();
        for (name, content) in payload {
            zip.start_file(*name, options).unwrap();
            zip.write_all(content).unwrap();
            record.push_str(&format!("{},{},{}\n", name, hash_content(content), content.len()));
        }
        zip.start_file(format!("{}/METADATA", prefix), options).unwrap();
        zip.write_all(metadata.as_bytes()).unwrap();
        record.push_str(&format!(
            "{}/METADATA,{},{}\n",
            prefix,
            hash_content(metadata.as_bytes()),
            metadata.len()
        ));
        zip.start_file(format!("{}/WHEEL", prefix), options).unwrap();
        zip.write_all(wheel_info.as_bytes()).unwrap();
        record.push_str(&format!(
            "{}/WHEEL,{},{}\n",
            prefix,
            hash_content(wheel_info.as_bytes()),
            wheel_info.len()
        ));
        record.push_str(&format!("{}/RECORD,,\n", prefix));
        zip.start_file(format!("{}/RECORD", prefix), options).unwrap();
        zip.write_all(record.as_bytes()).unwrap();
        zip.finish().unwrap();
    }
    buf.into_inner()
}

fn create_test_wheel() -> Vec<u8> {
    build_wheel(
        "test_pkg-1.0.0.dist-info",
        "Metadata-Version: 2.1\nName: test-pkg\nVersion: 1.0.0\nSummary: Test package\n",
        "Wheel-Version: 1.0\nGenerator: test\nRoot-Is-Purelib: true\nTag: py3-none-any\n",
        &[("test_pkg/__init__.py", b"__version__ = '1.0.0'\n")],
    )
}

fn names_of(bytes: &[u8]) -> Vec<String> {
    let archive = ZipArchive::new(Cursor::new(bytes.to_vec())).unwrap();
    (0..archive.len()).map(|i| archive.name_for_index(i).unwrap().to_string()).collect()
}

fn text_of(bytes: &[u8], name: &str) -> String {
    let mut archive = ZipArchive::new(Cursor::new(bytes.to_vec())).unwrap();
    let mut file = archive.by_name(name).unwrap();
    let mut text = String::new();
    file.read_to_string(&mut text).unwrap();
    text
}

#[test]
fn test_open_wheel() {
    let wheel = create_test_wheel();

    let editor = WheelEditor::open("test_pkg-1.0.0-py3-none-any.whl", wheel).unwrap();
    assert_eq!(editor.name(), "test-pkg");
    assert_eq!(editor.version(), "1.0.0");
    assert_eq!(editor.summary(), Some("Test package"));
}

#[test]
fn test_modify_and_save() {
    let wheel = create_test_wheel();

    let mut editor = WheelEditor::open("test_pkg-1.0.0-py3-none-any.whl", wheel.clone()).unwrap();
    editor.set_version("1.0.1");
    editor.set_summary("Updated summary");
    let output = editor.save(wheel).unwrap();

    let new_editor = WheelEditor::open("test_pkg-1.0.1-py3-none-any.whl", output).unwrap();
    assert_eq!(new_editor.version(), "1.0.1");
    assert_eq!(new_editor.summary(), Some("Updated summary"));
}

#[test]
fn test_validate() {
    let wheel = create_test_wheel();

    let editor = WheelEditor::open("test_pkg-1.0.0-py3-none-any.whl", wheel.clone()).unwrap();
    let result = editor.validate(wheel).unwrap();
    assert!(result.is_valid());
}

#[test]
fn a_version_bump_renames_the_directory_and_keeps_the_wheel_sound() {
    let wheel = create_test_wheel();
    let mut editor = WheelEditor::open("test_pkg-1.0.0-py3-none-any.whl", wheel.clone()).unwrap();
    editor.set_version("1.0.1");
    let output = editor.save(wheel.clone()).unwrap();
    assert_eq!(
        names_of(&output),
        vec![
            "test_pkg/__init__.py",
            "test_pkg-1.0.1.dist-info/WHEEL",
            "test_pkg-1.0.1.dist-info/METADATA",
            "test_pkg-1.0.1.dist-info/RECORD",
        ]
    );
    let saved = WheelEditor::open("test_pkg-1.0.1-py3-none-any.whl", output.clone()).unwrap();
    assert_eq!(saved.version(), "1.0.1");
    let record = Record::parse(&text_of(&output, "test_pkg-1.0.1.dist-info/RECORD")).unwrap();
    assert_eq!(record.entries.len(), 4);
    assert_eq!(record.entries[3].path, "test_pkg-1.0.1.dist-info/RECORD");
    assert_eq!(record.entries[3].hash, None);
    assert_eq!(record.entries[3].size, None);
    assert!(saved.validate(output).unwrap().is_valid());
    let old_record = Record::parse(&text_of(&wheel, "test_pkg-1.0.0.dist-info/RECORD")).unwrap();
    assert_eq!(record.entries[0].hash, old_record.entries[0].hash);
    assert_eq!(record.entries[0].size, old_record.entries[0].size);
    assert_eq!(
        record.find("test_pkg-1.0.1.dist-info/WHEEL").unwrap().hash,
        old_record.find("test_pkg-1.0.0.dist-info/WHEEL").unwrap().hash
    );
}

#[test]
fn a_new_name_gives_the_normalized_directory() {
    let wheel = build_wheel(
        "my-pkg-2.0.dist-info",
        "Metadata-Version: 2.1\nName: my-pkg\nVersion: 2.0\n",
        "Wheel-Version: 1.0\nGenerator: test\nRoot-Is-Purelib: true\nTag: py3-none-any\n",
        &[("my_pkg/__init__.py", b"")],
    );
    let mut editor = WheelEditor::open("my_pkg-2.0-py3-none-any.whl", wheel.clone()).unwrap();
    editor.set_name("my.pkg");
    let output = editor.save(wheel).unwrap();
    let reader = WheelReader::new(Cursor::new(output.clone())).unwrap();
    assert_eq!(reader.dist_info_prefix(), "my_pkg-2.0.dist-info");
    assert!(names_of(&output).contains(&"my_pkg-2.0.dist-info/METADATA".to_string()));
    let saved = WheelEditor::open("out.whl", output.clone()).unwrap();
    assert_eq!(saved.name(), "my.pkg");
    assert!(saved.validate(output).unwrap().is_valid());
}

#[test]
fn a_new_platform_rewrites_the_wheel_file() {
    let wheel = build_wheel(
        "ext-1.0.dist-info",
        "Metadata-Version: 2.1\nName: ext\nVersion: 1.0\n",
        "Wheel-Version: 1.0\nGenerator: test\nRoot-Is-Purelib: false\nTag: cp311-cp311-linux_x86_64\n",
        &[("ext/mod.py", b"pass\n")],
    );
    let mut editor = WheelEditor::open("ext-1.0-cp311-cp311-linux_x86_64.whl", wheel.clone()).unwrap();
    assert_eq!(editor.platform_tag(), Some("linux_x86_64"));
    editor.set_platform_tag("manylinux_2_28_x86_64");
    assert_eq!(editor.platform_tag(), Some("manylinux_2_28_x86_64"));
    let output = editor.save(wheel).unwrap();
    let text = text_of(&output, "ext-1.0.dist-info/WHEEL");
    assert!(text.contains("Tag: cp311-cp311-manylinux_2_28_x86_64\n"));
    let saved = WheelEditor::open("out.whl", output.clone()).unwrap();
    assert!(saved.validate(output).unwrap().is_valid());
}

#[test]
fn a_wrong_hash_in_the_record_is_found() {
    let mut buf = Cursor::new(Vec::new());
    {
        let mut zip = ZipWriter::new(&mut buf);
        let options = SimpleFileOptions::default();
        zip.start_file("pkg/mod.py", options).unwrap();
        zip.write_all(b"x = 1\n").unwrap();
        zip.start_file("pkg-1.0.dist-info/METADATA", options).unwrap();
        zip.write_all(b"Name: pkg\nVersion: 1.0\n").unwrap();
        zip.start_file("pkg-1.0.dist-info/WHEEL", options).unwrap();
        zip.write_all(b"Wheel-Version: 1.0\nTag: py3-none-any\n").unwrap();
        zip.start_file("pkg-1.0.dist-info/RECORD", options).unwrap();
        zip.write_all(b"pkg/mod.py,sha256=WRONGWRONG,6\npkg-1.0.dist-info/RECORD,,\n").unwrap();
        zip.finish().unwrap();
    }
    let wheel = buf.into_inner();
    let editor = WheelEditor::open("pkg.whl", wheel.clone()).unwrap();
    let result = editor.validate(wheel).unwrap();
    assert!(!result.is_valid());
    assert!(result.errors.iter().any(|e| matches!(
        e,
        editwheel::ValidationError::HashMismatch { path, expected, .. }
            if path == "pkg/mod.py" && expected == "sha256=WRONGWRONG"
    )));
}

#[test]
fn the_setters_change_the_fields_they_name() {
    let wheel = create_test_wheel();
    let mut editor = WheelEditor::open("a.whl", wheel).unwrap();
    assert_eq!(editor.path(), "a.whl");
    editor.set_name("other");
    editor.set_description("D");
    editor.set_author("A");
    editor.set_author_email("a@b");
    editor.set_license("MIT");
    editor.set_requires_python(">=3.9");
    editor.set_classifiers(vec!["C1".to_string()]);
    editor.add_classifier("C2");
    editor.set_requires_dist(vec!["r1".to_string()]);
    editor.add_requires_dist("r2");
    editor.set_project_urls(vec!["Home, https://h".to_string()]);
    editor.add_project_url("Docs, https://d");
    assert_eq!(editor.name(), "other");
    assert_eq!(editor.version(), "1.0.0");
    assert_eq!(editor.description(), Some("D"));
    assert_eq!(editor.author(), Some("A"));
    assert_eq!(editor.author_email(), Some("a@b"));
    assert_eq!(editor.license(), Some("MIT"));
    assert_eq!(editor.requires_python(), Some(">=3.9"));
    assert_eq!(editor.classifiers(), ["C1".to_string(), "C2".to_string()]);
    assert_eq!(editor.requires_dist(), ["r1".to_string(), "r2".to_string()]);
    assert_eq!(
        editor.project_urls(),
        ["Home, https://h".to_string(), "Docs, https://d".to_string()]
    );
    editor.metadata_mut().keywords = Some("k".to_string());
    assert_eq!(editor.metadata().keywords, Some("k".to_string()));
    editor.wheel_info_mut().build = Some("3".to_string());
    assert_eq!(editor.wheel_info().build, Some("3".to_string()));
    assert!(!editor.has_modified_files());
    assert!(editor.modified_file_paths().is_empty());
}

#[test]
fn an_archive_without_dist_info_is_no_wheel() {
    let mut buf = Cursor::new(Vec::new());
    {
        let mut zip = ZipWriter::new(&mut buf);
        zip.start_file("pkg/mod.py", SimpleFileOptions::default()).unwrap();
        zip.write_all(b"x").unwrap();
        zip.finish().unwrap();
    }
    match WheelReader::new(Cursor::new(buf.into_inner())) {
        Err(WheelError::InvalidWheel(_)) => {}
        _ => panic!("expected InvalidWheel"),
    }
}

#[test]
fn an_archive_with_two_dist_info_directories_is_no_wheel() {
    let mut buf = Cursor::new(Vec::new());
    {
        let mut zip = ZipWriter::new(&mut buf);
        let options = SimpleFileOptions::default();
        zip.start_file("a-1.dist-info/METADATA", options).unwrap();
        zip.write_all(b"x").unwrap();
        zip.start_file("b-1.dist-info/METADATA", options).unwrap();
        zip.write_all(b"x").unwrap();
        zip.finish().unwrap();
    }
    match WheelReader::new(Cursor::new(buf.into_inner())) {
        Err(WheelError::InvalidWheel(_)) => {}
        _ => panic!("expected InvalidWheel"),
    }
}

#[test]
fn bytes_that_are_no_archive_give_a_zip_error() {
    match WheelEditor::open("x.whl", b"not a zip".to_vec()) {
        Err(WheelError::Zip(_)) => {}
        _ => panic!("expected a ZIP error"),
    }
}

#[test]
fn a_missing_descriptor_gives_an_error() {
    let mut buf = Cursor::new(Vec::new());
    {
        let mut zip = ZipWriter::new(&mut buf);
        let options = SimpleFileOptions::default();
        zip.start_file("a-1.dist-info/METADATA", options).unwrap();
        zip.write_all(b"Name: a\nVersion: 1\n").unwrap();
        zip.finish().unwrap();
    }
    let mut reader = WheelReader::new(Cursor::new(buf.into_inner())).unwrap();
    assert_eq!(reader.dist_info_prefix(), "a-1.dist-info");
    assert_eq!(reader.len(), 1);
    assert!(!reader.is_empty());
    assert_eq!(reader.read_metadata().unwrap().name, "a");
    assert!(matches!(reader.read_record(), Err(WheelError::Zip(_))));
    assert!(matches!(reader.read_wheel_file(), Err(WheelError::Zip(_))));
    assert!(matches!(reader.read_wheel_info(), Err(WheelError::Zip(_))));
    assert_eq!(reader.archive().len(), 1);
    assert_eq!(reader.archive_mut().len(), 1);
}

#[test]
fn the_directory_name_ends_at_the_first_marker() {
    assert_eq!(dist_info_in("pkg-1.0.dist-info/METADATA"), Some("pkg-1.0.dist-info".to_string()));
    assert_eq!(dist_info_in("a.dist-info/b.dist-info/c"), Some("a.dist-info".to_string()));
    assert_eq!(dist_info_in("pkg-1.0.dist-info"), None);
    assert_eq!(dist_info_in(".dist-info/x"), Some(".dist-info".to_string()));
}

#[test]
fn the_search_path_of_a_missing_member_is_an_error() {
    let wheel = create_test_wheel();
    let editor = WheelEditor::open("a.whl", wheel.clone()).unwrap();
    match editor.get_rpath(wheel.clone(), "nothing.so") {
        Err(WheelError::Elf(ElfError::FileNotFound(path))) => assert_eq!(path, "nothing.so"),
        _ => panic!("expected FileNotFound"),
    }
    match editor.get_rpath(wheel, "test_pkg/__init__.py") {
        Err(WheelError::Elf(ElfError::InvalidElf(_))) => {}
        _ => panic!("expected InvalidElf"),
    }
}

#[test]
fn a_pattern_selects_members_and_skips_what_is_no_elf_image() {
    let wheel = create_test_wheel();
    let mut editor = WheelEditor::open("a.whl", wheel.clone()).unwrap();
    assert_eq!(editor.set_rpath(wheel.clone(), "test_pkg/*.py", "$ORIGIN").unwrap(), 0);
    assert_eq!(editor.set_rpath(wheel.clone(), "**/*", "$ORIGIN").unwrap(), 0);
    assert!(!editor.has_modified_files());
    match editor.set_rpath(wheel, "a[", "$ORIGIN") {
        Err(WheelError::GlobPattern(_)) => {}
        _ => panic!("expected a pattern error"),
    }
}

fn wheel_with_descriptors(metadata: &[u8], wheel_info: &[u8], record: &[u8]) -> Vec<u8> {
    let mut buf = Cursor::new(Vec::new());
    {
        let mut zip = ZipWriter::new(&mut buf);
        let options = SimpleFileOptions::default();
        zip.start_file("pkg-1.0.dist-info/METADATA", options).unwrap();
        zip.write_all(metadata).unwrap();
        zip.start_file("pkg-1.0.dist-info/WHEEL", options).unwrap();
        zip.write_all(wheel_info).unwrap();
        zip.start_file("pkg-1.0.dist-info/RECORD", options).unwrap();
        zip.write_all(record).unwrap();
        zip.finish().unwrap();
    }
    buf.into_inner()
}

#[test]
fn a_descriptor_that_is_no_text_gives_an_io_error() {
    let wheel = wheel_with_descriptors(b"Name: pkg\nVersion: \xff\xfe\n", b"Wheel-Version: 1.0\nTag: py3-none-any\n", b"");
    match WheelEditor::open("pkg.whl", wheel) {
        Err(WheelError::Io(_)) => {}
        _ => panic!("expected an I/O error"),
    }
}

#[test]
fn a_metadata_without_name_gives_a_metadata_error() {
    let wheel = wheel_with_descriptors(b"Version: 1.0\n", b"Wheel-Version: 1.0\nTag: py3-none-any\n", b"");
    match WheelEditor::open("pkg.whl", wheel) {
        Err(WheelError::Metadata(editwheel::MetadataError::MissingField(field))) => {
            assert_eq!(field, "Name")
        }
        _ => panic!("expected a metadata error"),
    }
}

#[test]
fn a_malformed_wheel_file_gives_a_wheel_info_error() {
    let wheel = wheel_with_descriptors(b"Name: pkg\nVersion: 1.0\n", b"Wheel-Version: 1.0\nTag: py3-none\n", b"");
    match WheelEditor::open("pkg.whl", wheel) {
        Err(WheelError::WheelInfo(editwheel::WheelInfoError::InvalidTag(_))) => {}
        _ => panic!("expected a WHEEL error"),
    }
}

#[test]
fn a_wheel_with_an_empty_record_opens() {
    let wheel = wheel_with_descriptors(b"Name: pkg\nVersion: 1.0\n", b"Wheel-Version: 1.0\nTag: py3-none-any\n", b"");
    let editor = WheelEditor::open("pkg.whl", wheel.clone()).unwrap();
    let result = editor.validate(wheel).unwrap();
    let extra: Vec<&str> = result
        .errors
        .iter()
        .map(|e| match e {
            editwheel::ValidationError::ExtraFile { path } => path.as_str(),
            _ => "other",
        })
        .collect();
    assert_eq!(extra, vec!["pkg-1.0.dist-info/METADATA", "pkg-1.0.dist-info/WHEEL"]);
}

#[test]
fn the_editor_reads_and_sets_fields_by_key() {
    let wheel = create_test_wheel();
    let mut editor = WheelEditor::open("a.whl", wheel.clone()).unwrap();
    assert!(matches!(editor.get_metadata("Summary"), Some(FieldValue::Single(v)) if v == "Test package"));
    assert!(editor.get_metadata("License").is_none());
    editor.set_metadata("License", FieldValue::Single("MIT".to_string()));
    editor.set_metadata("Requires-Dist", FieldValue::Many(vec!["click".to_string()]));
    assert_eq!(editor.license(), Some("MIT"));
    assert_eq!(editor.requires_dist(), ["click".to_string()]);
    let output = editor.save(wheel).unwrap();
    let saved = WheelEditor::open("out.whl", output).unwrap();
    assert_eq!(saved.license(), Some("MIT"));
    assert!(matches!(saved.get_metadata("Requires-Dist"), Some(FieldValue::Many(v)) if v == vec!["click".to_string()]));
}

#[test]
fn a_failed_search_path_leaves_the_editor_as_it_was() {
    let mut buf = Cursor::new(Vec::new());
    {
        let mut zip = ZipWriter::new(&mut buf);
        let stored = SimpleFileOptions::default().compression_method(zip::CompressionMethod::Stored);
        zip.start_file("pkg/lib.so", stored).unwrap();
        zip.write_all(b"payload-payload").unwrap();
        zip.start_file("pkg-1.0.dist-info/METADATA", stored).unwrap();
        zip.write_all(b"Name: pkg\nVersion: 1.0\n").unwrap();
        zip.start_file("pkg-1.0.dist-info/WHEEL", stored).unwrap();
        zip.write_all(b"Wheel-Version: 1.0\nTag: py3-none-any\n").unwrap();
        zip.start_file("pkg-1.0.dist-info/RECORD", stored).unwrap();
        zip.write_all(b"pkg/lib.so,sha256=kept,15\n").unwrap();
        zip.finish().unwrap();
    }
    let mut wheel = buf.into_inner();
    let at = wheel.windows(15).position(|w| w == b"payload-payload").unwrap();
    wheel[at] ^= 0xff;
    let mut editor = WheelEditor::open("pkg.whl", wheel.clone()).unwrap();
    assert!(editor.set_rpath(wheel.clone(), "pkg/*.so", "$ORIGIN").is_err());
    assert!(!editor.has_modified_files());
    assert_eq!(editor.set_rpath(wheel.clone(), "pkg/*.py", "$ORIGIN").unwrap(), 0);
    assert!(editor.get_rpath(wheel.clone(), "pkg/lib.so").is_err());
    let saved = editor.save(wheel).unwrap();
    assert_eq!(names_of(&saved), vec!["pkg/lib.so", "pkg-1.0.dist-info/WHEEL", "pkg-1.0.dist-info/METADATA", "pkg-1.0.dist-info/RECORD"]);
    let reopened = WheelEditor::open("out.whl", saved.clone()).unwrap();
    assert!(reopened.validate(saved).is_err());
}

#[test]
fn a_saved_wheel_states_what_the_editor_held() {
    let wheel = create_test_wheel();
    let mut editor = WheelEditor::open("a.whl", wheel.clone()).unwrap();
    editor.set_version("1.0.1");
    editor.set_license("MIT\nwith a note");
    editor.set_platform_tag("linux_x86_64");
    let saved = editor.save(wheel).unwrap();
    assert_eq!(
        text_of(&saved, "test_pkg-1.0.1.dist-info/METADATA"),
        editor.metadata().serialize()
    );
    assert_eq!(text_of(&saved, "test_pkg-1.0.1.dist-info/WHEEL"), editor.wheel_info().serialize());
    assert_eq!(text_of(&saved, "test_pkg/__init__.py"), "__version__ = '1.0.0'\n");
    let reopened = WheelEditor::open("b.whl", saved.clone()).unwrap();
    assert_eq!(reopened.license(), Some("MIT\nwith a note"));
    assert_eq!(reopened.platform_tag(), Some("linux_x86_64"));
    assert!(reopened.validate(saved).unwrap().is_valid());
}
