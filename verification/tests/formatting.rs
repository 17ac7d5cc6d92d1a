use wastebin::key::Key;
use wastebin::layer::Layer;
use wastebin::{Entry, Error};

fn entry(text: &str) -> Entry {
    Entry {
        text: String::from(text),
        extension: None,
        expires: None,
        burn_after_reading: None,
    }
}

#[test]
fn formatted_read_renders_markup() {
    let mut layer = Layer::new(16);
    let text = "fn main() { println!(\"hi\"); }";
    let id = layer.insert(&entry(text), 0).unwrap();
    let key = Key::parse(&format!("{}.rs", id.encode())).unwrap();
    let markup = layer.get_formatted(&key, 0).unwrap();
    // Real rendering produces markup, not the text handed in.
    assert_ne!(markup, text);
    assert!(markup.contains("<pre"));
}

#[test]
fn extension_override_changes_rendering_without_mutating() {
    let mut layer = Layer::new(16);
    let text = "def f():\n    return 1\n";
    let id = layer.insert(&entry(text), 0).unwrap();
    let token = id.encode();
    let py_key = Key::parse(&format!("{token}.py")).unwrap();
    let plain_key = Key::parse(&token).unwrap();
    let py_markup = layer.get_formatted(&py_key, 0).unwrap();
    let plain_markup = layer.get_formatted(&plain_key, 0).unwrap();
    assert_ne!(py_markup, plain_markup);
    // The stored entry itself is untouched.
    assert_eq!(layer.get_raw(id, 0).unwrap(), text);
    assert_eq!(layer.get_formatted(&plain_key, 1).unwrap(), plain_markup);
}

#[test]
fn cache_serves_repeat_reads_without_rendering_again() {
    let mut layer = Layer::new(16);
    let id = layer.insert(&entry("cached text"), 0).unwrap();
    let key = Key::parse(&format!("{}.md", id.encode())).unwrap();
    let first = layer.get_formatted(&key, 0).unwrap();
    let calls_after_first = layer.render_call_count();
    let second = layer.get_formatted(&key, 0).unwrap();
    assert_eq!(first, second);
    assert_eq!(layer.render_call_count(), calls_after_first);
}

#[test]
fn distinct_extensions_are_cached_separately() {
    let mut layer = Layer::new(16);
    let id = layer.insert(&entry("text"), 0).unwrap();
    let token = id.encode();
    let a = Key::parse(&format!("{token}.rs")).unwrap();
    let b = Key::parse(&format!("{token}.py")).unwrap();
    layer.get_formatted(&a, 0).unwrap();
    let calls = layer.render_call_count();
    layer.get_formatted(&b, 0).unwrap();
    assert_eq!(layer.render_call_count(), calls + 1);
}

#[test]
fn formatted_read_of_absent_id_is_not_found() {
    let mut layer = Layer::new(16);
    let key = Key::parse("000000").unwrap();
    assert_eq!(layer.get_formatted(&key, 0).unwrap_err(), Error::NotFound);
}
