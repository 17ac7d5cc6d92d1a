use wastebin::id::{decode, encode, Id};
use wastebin::Error;

#[test]
fn round_trip_zero() {
    assert_eq!(decode(&encode(0)), Ok(0));
}

#[test]
fn round_trip_samples() {
    let samples: Vec<u32> = vec![0, 1, 9, 10, 35, 36, 61, 62, 63, 64, 255, 4096, 123456789, u32::MAX];
    for x in samples {
        let token = encode(x);
        assert_eq!(token.chars().count(), 6);
        assert_eq!(decode(&token), Ok(x));
    }
}

#[test]
fn encode_known_values() {
    assert_eq!(encode(0), "000000");
    assert_eq!(encode(1), "100000");
    assert_eq!(encode(63), "_00000");
    assert_eq!(encode(64), "010000");
}

#[test]
fn tokens_are_distinct() {
    assert_ne!(encode(1), encode(2));
    assert_ne!(encode(0), encode(u32::MAX));
}

#[test]
fn decode_rejects_wrong_length() {
    assert_eq!(decode(""), Err(Error::IllegalCharacters));
    assert_eq!(decode("00000"), Err(Error::IllegalCharacters));
    assert_eq!(decode("0000000"), Err(Error::IllegalCharacters));
}

#[test]
fn decode_rejects_foreign_characters() {
    assert_eq!(decode("!!!!!!"), Err(Error::IllegalCharacters));
    assert_eq!(decode("00000."), Err(Error::IllegalCharacters));
}

#[test]
fn decode_rejects_overflowing_token() {
    // The last digit carries only two bits, so it must be below four.
    assert_eq!(decode("00000z"), Err(Error::IllegalCharacters));
    assert_eq!(decode("000004"), Err(Error::IllegalCharacters));
    assert!(decode("000003").is_ok());
}

#[test]
fn id_parse_reports_invalid_id() {
    assert_eq!(Id::parse("??????").unwrap_err(), Error::InvalidId);
    let id = Id::parse(&encode(77)).unwrap();
    assert_eq!(id.value, 77);
}

#[test]
fn url_path_carries_extension() {
    let entry = wastebin::Entry {
        text: String::from("x"),
        extension: Some(String::from("rs")),
        expires: None,
        burn_after_reading: None,
    };
    let id = Id::from_value(5);
    assert_eq!(id.to_url_path(&entry), "/500000.rs");
    let plain = wastebin::Entry {
        text: String::from("x"),
        extension: None,
        expires: None,
        burn_after_reading: None,
    };
    assert_eq!(id.to_url_path(&plain), "/500000");
}
