use std::borrow::Cow;
use westwood::metadata::{cow_replace, ProgramMetadata};

#[test]
fn capitalize_package_name() {
    let metadata = ProgramMetadata {
        package: "crashlog".into(),
        binary: "".into(),
        version: "".into(),
        repository: "".into(),
        authors: "".into(),
    };
    let new = metadata.capitalized();
    assert_eq!("Crashlog", new.package);
    let mut empty = new;
    empty.package = "".into();
    let new = empty.capitalized();
    assert_eq!("", new.package);
}

#[test]
fn metadata_placeholder() {
    // Test builds do not set `CARGO_BIN_NAME`, so the placeholder is expected.
    let metadata = ProgramMetadata::from_cargo(Some("crashlog"), None, Some("0.1.0"), None, None, "place");
    assert_eq!(metadata.binary, "place");
}

#[test]
fn test_cow_replace() {
    // When found, string should be copied and replaced
    let s = "abc:def";
    assert!(matches!(cow_replace(s, ":", ","), Cow::Owned(val) if val == "abc,def"));

    // When not found, string should not be copied
    let s = "abc:def";
    assert!(matches!(cow_replace(s, "+", " "), Cow::Borrowed(val) if val == s));
}

#[test]
fn cow_replace_every_occurrence() {
    assert!(matches!(cow_replace("a:b:c", ":", ", "), Cow::Owned(val) if val == "a, b, c"));
    assert!(matches!(cow_replace("aaa", "aa", "b"), Cow::Owned(val) if val == "ba"));
    assert!(matches!(cow_replace("", ":", ", "), Cow::Borrowed(val) if val.is_empty()));
}

#[test]
fn authors_are_joined() {
    let metadata = ProgramMetadata::from_cargo(None, None, None, None, Some("A <a@x>:B <b@y>"), "?");
    assert_eq!(metadata.authors, "A <a@x>, B <b@y>");
    assert_eq!(metadata.package, "?");
}

#[test]
fn capitalize_non_ascii() {
    let metadata = ProgramMetadata::from_cargo(Some("éclair"), None, None, None, None, "");
    assert_eq!("Éclair", metadata.capitalized().package);
}
