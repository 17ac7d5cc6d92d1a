use wastebin::form::{parse_u32, str_equal};
use wastebin::{Entry, Error};

#[test]
fn form_expires_burn_sets_the_flag() {
    let e = Entry::from_form(String::from("text"), None, String::from("burn"));
    assert_eq!(e.burn_after_reading, Some(true));
    assert_eq!(e.expires, None);
}

#[test]
fn form_expires_seconds() {
    let e = Entry::from_form(String::from("text"), Some(String::from("rs")), String::from("3600"));
    assert_eq!(e.burn_after_reading, Some(false));
    assert_eq!(e.expires, Some(3600));
    assert_eq!(e.extension.as_deref(), Some("rs"));
    assert_eq!(e.text, "text");
}

#[test]
fn form_expires_zero_or_junk_means_never() {
    assert_eq!(Entry::from_form(String::new(), None, String::from("0")).expires, None);
    assert_eq!(Entry::from_form(String::new(), None, String::from("")).expires, None);
    assert_eq!(Entry::from_form(String::new(), None, String::from("soon")).expires, None);
    assert_eq!(
        Entry::from_form(String::new(), None, String::from("99999999999999999999")).expires,
        None,
    );
}

#[test]
fn parse_u32_accepts_digits_only() {
    assert_eq!(parse_u32("0"), Some(0));
    assert_eq!(parse_u32("4294967295"), Some(u32::MAX));
    assert_eq!(parse_u32("4294967296"), None);
    assert_eq!(parse_u32("12a"), None);
    assert_eq!(parse_u32(""), None);
}

#[test]
fn str_equal_compares_contents() {
    assert!(str_equal("burn", "burn"));
    assert!(!str_equal("burn", "bur"));
    assert!(!str_equal("burn", "barn"));
}

#[test]
fn error_messages_name_each_failure() {
    assert_eq!(Error::NotFound.message(), "paste not found");
    assert_eq!(Error::InvalidId.message(), "invalid id");
    assert_eq!(Error::IllegalCharacters.message(), "illegal characters");
    assert_eq!(Error::OutOfIds.message(), "out of ids");
}
