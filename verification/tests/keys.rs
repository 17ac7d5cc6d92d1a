use wastebin::id::encode;
use wastebin::key::Key;
use wastebin::Error;

#[test]
fn key_without_extension() {
    let token = encode(42);
    let key = Key::parse(&token).unwrap();
    assert_eq!(key.id.value, 42);
    assert!(key.extension.is_none());
}

#[test]
fn key_with_extension() {
    let segment = format!("{}.py", encode(42));
    let key = Key::parse(&segment).unwrap();
    assert_eq!(key.id.value, 42);
    assert_eq!(key.extension.as_deref(), Some("py"));
}

#[test]
fn key_splits_on_last_dot() {
    let segment = format!("{}.tar.gz", encode(3));
    // The id part "000300.tar" does not decode, so the id is invalid.
    assert_eq!(Key::parse(&segment).unwrap_err(), Error::InvalidId);
}

#[test]
fn malformed_id_fails_with_invalid_id() {
    assert_eq!(Key::parse("??????").unwrap_err(), Error::InvalidId);
    assert_eq!(Key::parse("abc").unwrap_err(), Error::InvalidId);
    assert_eq!(Key::parse("??????.rs").unwrap_err(), Error::InvalidId);
}

#[test]
fn non_ascii_extension_fails_with_illegal_characters() {
    let segment = format!("{}.r\u{00e9}s", encode(42));
    assert_eq!(Key::parse(&segment).unwrap_err(), Error::IllegalCharacters);
}

#[test]
fn effective_extension_resolution_order() {
    let token = encode(9);
    let with_ext = Key::parse(&format!("{token}.py")).unwrap();
    let without_ext = Key::parse(&token).unwrap();
    let stored = Some(String::from("rs"));
    assert_eq!(with_ext.effective_extension(&stored), "py");
    assert_eq!(without_ext.effective_extension(&stored), "rs");
    assert_eq!(without_ext.effective_extension(&None), "txt");
}
