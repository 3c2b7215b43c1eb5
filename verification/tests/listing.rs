//! Decoding the storage manager's JSON listing.

use zfs_sync::decode::parse_listing;
use zfs_sync::errors::DecodeError;
use zfs_sync::typed_command::{OutputType, ParseableOutput};
use zfs_sync::zfs_types::ZfsListItem;

#[test]
fn listing_decodes_snapshots_and_datasets() {
    let text = r#"
    {
        "output_version": {"command": "zfs list", "vers_major": 0},
        "datasets": {
            "pool/fs": {"name": "pool/fs", "type": "FILESYSTEM", "pool": "pool"},
            "pool/fs@s1": {
                "name": "pool/fs@s1",
                "type": "SNAPSHOT",
                "pool": "pool",
                "createtxg": 18446744073709551615,
                "dataset": "pool/fs",
                "snapshot_name": "s1"
            }
        }
    }
    "#;
    let listing = parse_listing(text).expect("a well-formed listing decodes");
    assert_eq!(listing.output.len(), 2);
    match &listing.output[0] {
        ZfsListItem::Dataset(d) => assert_eq!(d.name, "pool/fs"),
        _ => panic!("the first entry is the dataset"),
    }
    match &listing.output[1] {
        ZfsListItem::Snapshot(s) => {
            assert_eq!(s.name, "pool/fs@s1");
            assert_eq!(s.dataset, "pool/fs");
            assert_eq!(s.snapshot_name, "s1");
            // The largest unsigned 64-bit value survives exactly.
            assert_eq!(s.createtxg, 18446744073709551615);
        }
        _ => panic!("the second entry is the snapshot"),
    }
    assert_eq!(listing.output[0].dataset_name(), "pool/fs");
    assert_eq!(listing.output[1].dataset_name(), "pool/fs");
}

#[test]
fn unknown_type_tag_fails_closed() {
    let text = r#"{"datasets": {"x": {"name": "x", "type": "BOOKMARK"}}}"#;
    match parse_listing(text) {
        Err(DecodeError::UnknownTag) => {}
        _ => panic!("an unknown entity tag must fail the decode"),
    }
}

#[test]
fn missing_snapshot_field_is_refused() {
    let text = r#"{"datasets": {"x": {"name": "x", "type": "SNAPSHOT", "createtxg": 3}}}"#;
    match parse_listing(text) {
        Err(DecodeError::MissingField) => {}
        _ => panic!("a snapshot entry without its fields must fail"),
    }
}

#[test]
fn missing_datasets_member_is_refused() {
    match parse_listing(r#"{"other": 1}"#) {
        Err(DecodeError::MissingField) => {}
        _ => panic!("a listing without its datasets member must fail"),
    }
    match parse_listing("{}") {
        Err(DecodeError::MissingField) => {}
        _ => panic!("an empty listing must fail"),
    }
}

#[test]
fn lossy_creation_ids_are_refused() {
    let float = r#"{"datasets": {"x": {"name": "x", "type": "SNAPSHOT",
        "createtxg": 12.5, "dataset": "d", "snapshot_name": "s"}}}"#;
    match parse_listing(float) {
        Err(DecodeError::InvalidInteger) => {}
        _ => panic!("a fractional creation id must fail"),
    }
    let too_big = r#"{"datasets": {"x": {"name": "x", "type": "SNAPSHOT",
        "createtxg": 18446744073709551616, "dataset": "d", "snapshot_name": "s"}}}"#;
    match parse_listing(too_big) {
        Err(DecodeError::InvalidInteger) => {}
        _ => panic!("a creation id beyond 64 bits must fail"),
    }
    let quoted = r#"{"datasets": {"x": {"name": "x", "type": "SNAPSHOT",
        "createtxg": "12", "dataset": "d", "snapshot_name": "s"}}}"#;
    match parse_listing(quoted) {
        Err(DecodeError::InvalidInteger) => {}
        _ => panic!("a textual creation id must fail"),
    }
}

#[test]
fn malformed_text_is_refused() {
    assert!(matches!(
        parse_listing("not json"),
        Err(DecodeError::MalformedJson)
    ));
    assert!(matches!(
        parse_listing(r#"{"datasets": {}} trailing"#),
        Err(DecodeError::MalformedJson)
    ));
    assert!(matches!(
        parse_listing(r#"{"datasets": {"x": {"name": "x", "type": "FILESYSTEM"}}"#),
        Err(DecodeError::MalformedJson)
    ));
}

#[test]
fn empty_datasets_member_is_an_empty_listing() {
    let listing = parse_listing(r#"{"datasets": {}}"#).expect("an empty mapping decodes");
    assert!(listing.output.is_empty());
}

#[test]
fn string_escapes_decode() {
    let text = r#"{"datasets": {"x": {"name": "a\"b\\c\n", "type": "FILESYSTEM"}}}"#;
    let listing = parse_listing(text).expect("escaped names decode");
    match &listing.output[0] {
        ZfsListItem::Dataset(d) => assert_eq!(d.name, "a\"b\\c\n"),
        _ => panic!("the entry is a dataset"),
    }
}

#[test]
fn unicode_escapes_decode() {
    let text = r#"{"datasets": {"x": {"name": "sn\u00e4p\u0020x", "type": "FILESYSTEM"}}}"#;
    let listing = parse_listing(text).expect("unicode escapes decode");
    match &listing.output[0] {
        ZfsListItem::Dataset(d) => assert_eq!(d.name, "sn\u{e4}p x"),
        _ => panic!("the entry is a dataset"),
    }
}

#[test]
fn surrogate_and_malformed_unicode_escapes_are_refused() {
    // A lone surrogate is not a scalar value.
    let surrogate = r#"{"datasets": {"x": {"name": "a\ud800b", "type": "FILESYSTEM"}}}"#;
    assert!(matches!(
        parse_listing(surrogate),
        Err(DecodeError::MalformedJson)
    ));
    // Too few hex digits.
    let short = r#"{"datasets": {"x": {"name": "a\u00g1", "type": "FILESYSTEM"}}}"#;
    assert!(matches!(parse_listing(short), Err(DecodeError::MalformedJson)));
}

#[test]
fn unknown_members_of_any_shape_are_skipped() {
    let text = r#"{
        "extras": [1, -2.5e3, true, false, null, {"nested": ["deep"]}],
        "datasets": {"x": {"name": "x", "type": "FILESYSTEM",
            "properties": {"mounted": {"value": "no"}}, "flag": true}}
    }"#;
    let listing = parse_listing(text).expect("unknown members are skipped");
    assert_eq!(listing.output.len(), 1);
}

#[test]
fn parseable_output_distinguishes_utf8_and_json_failures() {
    let bad_utf8 = vec![0xff, 0xfe, 0xfd];
    match ParseableOutput::parse(bad_utf8) {
        Err(DecodeError::InvalidUtf8) => {}
        _ => panic!("bytes that are not text fail as such"),
    }
    let ok = br#"{"datasets": {"x": {"name": "x", "type": "FILESYSTEM"}}}"#.to_vec();
    let parsed = ParseableOutput::parse(ok).expect("valid listing bytes decode");
    assert_eq!(parsed.output.output.len(), 1);
}
