use std::collections::HashSet;

use wastebin::id::Id;
use wastebin::key::Key;
use wastebin::layer::Layer;
use wastebin::{Entry, Error};

fn entry(text: &str) -> Entry {
    Entry {
        text: String::from(text),
        extension: None,
        expires: None,
        burn_after_reading: None,
    }
}

#[test]
fn insert_then_read_raw() {
    let mut layer = Layer::new(16);
    let id = layer.insert(&entry("hello world"), 1000).unwrap();
    assert_eq!(layer.get_raw(id, 1000).unwrap(), "hello world");
    // A non-burn entry reads back any number of times.
    assert_eq!(layer.get_raw(id, 2000).unwrap(), "hello world");
}

#[test]
fn absent_id_reads_not_found() {
    let mut layer = Layer::new(16);
    assert_eq!(layer.get_raw(Id::from_value(1), 0).unwrap_err(), Error::NotFound);
}

#[test]
fn inserts_yield_distinct_ids() {
    let mut layer = Layer::new(64);
    let mut seen: HashSet<u32> = HashSet::new();
    for i in 0..50 {
        let id = layer.insert(&entry(&format!("paste {i}")), 10).unwrap();
        assert!(seen.insert(id.value), "id handed out twice");
    }
}

#[test]
fn forced_collision_exhausts_with_out_of_ids() {
    let mut layer = Layer::new(4);
    assert!(layer.insert_candidate(Id::from_value(1), &entry("first"), 0));
    // Every candidate is occupied by a live entry, so allocation fails.
    let candidates = vec![1, 1, 1, 1];
    let err = layer.insert_with(&candidates, &entry("second"), 0).unwrap_err();
    assert_eq!(err, Error::OutOfIds);
    // The occupant is untouched.
    assert_eq!(layer.get_raw(Id::from_value(1), 0).unwrap(), "first");
}

#[test]
fn occupied_candidate_is_not_overwritten() {
    let mut layer = Layer::new(4);
    assert!(layer.insert_candidate(Id::from_value(8), &entry("keep"), 0));
    assert!(!layer.insert_candidate(Id::from_value(8), &entry("clobber"), 0));
    assert_eq!(layer.get_raw(Id::from_value(8), 0).unwrap(), "keep");
}

#[test]
fn expired_id_can_be_reused() {
    let mut layer = Layer::new(4);
    let mut short = entry("short lived");
    short.expires = Some(1);
    assert!(layer.insert_candidate(Id::from_value(5), &short, 100));
    // After the deadline the id counts as free again.
    assert!(layer.insert_candidate(Id::from_value(5), &entry("fresh"), 200));
    assert_eq!(layer.get_raw(Id::from_value(5), 200).unwrap(), "fresh");
}

#[test]
fn burn_after_reading_reads_exactly_once() {
    let mut layer = Layer::new(16);
    let mut e = entry("secret");
    e.burn_after_reading = Some(true);
    let id = layer.insert(&e, 0).unwrap();
    assert_eq!(layer.get_raw(id, 0).unwrap(), "secret");
    assert_eq!(layer.get_raw(id, 0).unwrap_err(), Error::NotFound);
    assert_eq!(layer.get_raw(id, 1).unwrap_err(), Error::NotFound);
}

#[test]
fn burn_applies_to_formatted_reads_too() {
    let mut layer = Layer::new(16);
    let mut e = entry("let x = 1;");
    e.burn_after_reading = Some(true);
    let id = layer.insert(&e, 0).unwrap();
    let key = Key::parse(&id.encode()).unwrap();
    assert!(layer.get_formatted(&key, 0).is_ok());
    // The burn read rendered once, but memoized nothing.
    assert_eq!(layer.render_call_count(), 1);
    assert_eq!(layer.get_formatted(&key, 0).unwrap_err(), Error::NotFound);
    assert_eq!(layer.get_raw(id, 0).unwrap_err(), Error::NotFound);
    assert_eq!(layer.render_call_count(), 1);
}

#[test]
fn expiration_is_enforced_lazily() {
    let mut layer = Layer::new(16);
    let mut e = entry("fleeting");
    e.expires = Some(1);
    let id = layer.insert(&e, 1000).unwrap();
    // Immediately readable, gone once the deadline has passed.
    assert_eq!(layer.get_raw(id, 1000).unwrap(), "fleeting");
    assert_eq!(layer.get_raw(id, 1001).unwrap_err(), Error::NotFound);
    assert_eq!(layer.get_raw(id, 5000).unwrap_err(), Error::NotFound);
}

#[test]
fn zero_or_absent_expiry_never_expires() {
    let mut layer = Layer::new(16);
    let mut zero = entry("forever");
    zero.expires = Some(0);
    let id0 = layer.insert(&zero, 0).unwrap();
    let id1 = layer.insert(&entry("also forever"), 0).unwrap();
    assert_eq!(layer.get_raw(id0, u64::MAX).unwrap(), "forever");
    assert_eq!(layer.get_raw(id1, u64::MAX).unwrap(), "also forever");
}
