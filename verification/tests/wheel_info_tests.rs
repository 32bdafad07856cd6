use editwheel::WheelInfo;
use editwheel::WheelInfoError;
use editwheel::WheelTag;

#[test]
fn test_parse_wheel_tag() {
    let tag = WheelTag::parse("cp311-cp311-linux_x86_64").unwrap();
    assert_eq!(tag.python, "cp311");
    assert_eq!(tag.abi, "cp311");
    assert_eq!(tag.platform, "linux_x86_64");
}

#[test]
fn test_parse_wheel_info() {
    let content = r#"Wheel-Version: 1.0
Generator: bdist_wheel (0.40.0)
Root-Is-Purelib: false
Tag: cp311-cp311-linux_x86_64
"#;

    let info = WheelInfo::parse(content).unwrap();
    assert_eq!(info.wheel_version, "1.0");
    assert_eq!(info.generator, Some("bdist_wheel (0.40.0)".to_string()));
    assert!(!info.root_is_purelib);
    assert_eq!(info.tags.len(), 1);
    assert_eq!(info.tags[0].platform, "linux_x86_64");
}

#[test]
fn test_parse_multiple_tags() {
    let content = r#"Wheel-Version: 1.0
Generator: test
Root-Is-Purelib: true
Tag: py3-none-any
Tag: py2-none-any
"#;

    let info = WheelInfo::parse(content).unwrap();
    assert_eq!(info.tags.len(), 2);
    assert_eq!(info.tags[0].platform, "any");
    assert_eq!(info.tags[1].python, "py2");
}

#[test]
fn test_set_platform() {
    let content = r#"Wheel-Version: 1.0
Generator: test
Root-Is-Purelib: false
Tag: cp311-cp311-linux_x86_64
"#;

    let mut info = WheelInfo::parse(content).unwrap();
    info.set_platform("manylinux_2_28_x86_64");
    assert_eq!(info.tags[0].platform, "manylinux_2_28_x86_64");
}

#[test]
fn types_test_roundtrip() {
    let content = r#"Wheel-Version: 1.0
Generator: bdist_wheel (0.40.0)
Root-Is-Purelib: false
Tag: cp311-cp311-linux_x86_64
"#;

    let info = WheelInfo::parse(content).unwrap();
    let serialized = info.serialize();
    let reparsed = WheelInfo::parse(&serialized).unwrap();

    assert_eq!(info.wheel_version, reparsed.wheel_version);
    assert_eq!(info.generator, reparsed.generator);
    assert_eq!(info.root_is_purelib, reparsed.root_is_purelib);
    assert_eq!(info.tags.len(), reparsed.tags.len());
    assert_eq!(info.tags[0], reparsed.tags[0]);
}

#[test]
fn a_tag_needs_exactly_three_parts() {
    match WheelTag::parse("py3-none") {
        Err(WheelInfoError::InvalidTag(message)) => {
            assert_eq!(message, "Expected 3 parts (python-abi-platform), got 2: 'py3-none'")
        }
        other => panic!("unexpected: {:?}", other),
    }
    match WheelTag::parse("a-b-c-d") {
        Err(WheelInfoError::InvalidTag(message)) => {
            assert_eq!(message, "Expected 3 parts (python-abi-platform), got 4: 'a-b-c-d'")
        }
        other => panic!("unexpected: {:?}", other),
    }
    match WheelTag::parse("") {
        Err(WheelInfoError::InvalidTag(message)) => {
            assert_eq!(message, "Expected 3 parts (python-abi-platform), got 1: ''")
        }
        other => panic!("unexpected: {:?}", other),
    }
}

#[test]
fn a_tag_may_have_empty_parts() {
    let tag = WheelTag::parse("--").unwrap();
    assert_eq!(tag.python, "");
    assert_eq!(tag.abi, "");
    assert_eq!(tag.platform, "");
    assert_eq!(tag.serialize(), "--");
}

#[test]
fn tag_serialize_joins_with_hyphens() {
    let tag = WheelTag {
        python: "py3".to_string(),
        abi: "none".to_string(),
        platform: "any".to_string(),
    };
    assert_eq!(tag.serialize(), "py3-none-any");
}

#[test]
fn wheel_serialize_writes_the_fields_in_their_order() {
    let content = "Tag: py3-none-any\nBuild: 7\nX-Extra: e\nRoot-Is-Purelib: TRUE\nGenerator: g\nWheel-Version: 1.0\nTag: py2-none-any\n";
    let info = WheelInfo::parse(content).unwrap();
    assert!(info.root_is_purelib);
    assert_eq!(
        info.serialize(),
        "Wheel-Version: 1.0\nGenerator: g\nRoot-Is-Purelib: true\nTag: py3-none-any\nTag: py2-none-any\nBuild: 7\nX-Extra: e\n"
    );
}

#[test]
fn purelib_is_false_for_anything_but_true() {
    let info = WheelInfo::parse("Wheel-Version: 1.0\nRoot-Is-Purelib: yes\nTag: py3-none-any\n").unwrap();
    assert!(!info.root_is_purelib);
    let info = WheelInfo::parse("Wheel-Version: 1.0\nRoot-Is-Purelib: tRuE\nTag: py3-none-any\n").unwrap();
    assert!(info.root_is_purelib);
}

#[test]
fn lines_are_trimmed_and_blank_lines_skipped() {
    let info = WheelInfo::parse("\n  Wheel-Version : 1.0  \r\n\n   \n\tTag:py3-none-any\n").unwrap();
    assert_eq!(info.wheel_version, "1.0");
    assert_eq!(info.tags.len(), 1);
}

#[test]
fn a_missing_version_is_reported_before_a_missing_tag() {
    match WheelInfo::parse("Generator: g\n") {
        Err(WheelInfoError::MissingField(field)) => assert_eq!(field, "Wheel-Version"),
        other => panic!("unexpected: {:?}", other),
    }
    match WheelInfo::parse("Wheel-Version: 1.0\n") {
        Err(WheelInfoError::MissingField(field)) => assert_eq!(field, "Tag"),
        other => panic!("unexpected: {:?}", other),
    }
}

#[test]
fn a_malformed_tag_is_reported_before_missing_fields() {
    match WheelInfo::parse("Tag: py3-none\n") {
        Err(WheelInfoError::InvalidTag(_)) => {}
        other => panic!("unexpected: {:?}", other),
    }
}

#[test]
fn platform_is_that_of_the_first_tag() {
    let info = WheelInfo::parse("Wheel-Version: 1.0\nTag: cp311-cp311-linux_x86_64\nTag: py3-none-any\n").unwrap();
    assert_eq!(info.platform(), Some("linux_x86_64"));
    assert_eq!(WheelInfo::default().platform(), None);
}

#[test]
fn set_platform_changes_every_tag_and_nothing_else() {
    let mut info = WheelInfo::parse("Wheel-Version: 1.0\nTag: cp311-cp311-linux_x86_64\nTag: cp310-abi3-linux_i686\n").unwrap();
    info.set_platform("manylinux_2_28_x86_64");
    assert_eq!(info.tags[0].serialize(), "cp311-cp311-manylinux_2_28_x86_64");
    assert_eq!(info.tags[1].serialize(), "cp310-abi3-manylinux_2_28_x86_64");
    assert_eq!(info.wheel_version, "1.0");
    assert!(info.serialize().contains("Tag: cp311-cp311-manylinux_2_28_x86_64\n"));
}
