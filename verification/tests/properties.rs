//! Concrete scenarios for the store's laws: round trips, write-through
//! defaults, clearing, the ring buffer's bound, and bulk enumeration.

use prefstore::{
    clearall, clearcustom, clearpreference, get_last_from_buffer, getallcustom, getbuffer,
    getcustom, getpreference, getpreferencenodefault, initcustomfile, savebuffer, savecustom,
    savepreference, PrefError, PrefStore,
};

#[test]
fn round_trip_returns_saved_value() {
    let mut s = PrefStore::new();
    savepreference(&mut s, "appa", "speed", "88").unwrap();
    assert_eq!(getpreference(&mut s, "appa", "speed", "0"), "88");
}

#[test]
fn round_trip_key_is_lowercased() {
    let mut s = PrefStore::new();
    savepreference(&mut s, "appa", "MyKey", "v1").unwrap();
    assert_eq!(getpreference(&mut s, "appa", "mykey", "other"), "v1");
    assert_eq!(getpreferencenodefault(&s, "appa", "MYKEY").unwrap(), "v1");
}

#[test]
fn default_is_written_through() {
    let mut s = PrefStore::new();
    assert_eq!(getpreference(&mut s, "appa", "fresh", "fallback"), "fallback");
    // The miss persisted the default: a later read without one still sees it.
    assert_eq!(getpreferencenodefault(&s, "appa", "fresh").unwrap(), "fallback");
}

#[test]
fn clear_removes_the_entry() {
    let mut s = PrefStore::new();
    savepreference(&mut s, "appa", "gone", "v").unwrap();
    clearpreference(&mut s, "appa", "gone").unwrap();
    assert_eq!(getpreferencenodefault(&s, "appa", "gone").unwrap(), "");
}

#[test]
fn clear_twice_is_idempotent() {
    let mut s = PrefStore::new();
    savecustom(&mut s, "appa", "f.txt", "v").unwrap();
    clearcustom(&mut s, "appa", "f.txt");
    clearcustom(&mut s, "appa", "f.txt");
    assert_eq!(getpreferencenodefault(&s, "appa", "f").unwrap(), "");
    // The scalar variant keeps the same policy: clearing twice succeeds.
    savepreference(&mut s, "appa", "k", "v").unwrap();
    clearpreference(&mut s, "appa", "k").unwrap();
    clearpreference(&mut s, "appa", "k").unwrap();
}

#[test]
fn buffer_capacity_bound() {
    let mut s = PrefStore::new();
    for v in ["a", "b", "c", "d", "e", "f"] {
        savebuffer(&mut s, "appa", "recent.txt", v, 3);
    }
    let snap = getbuffer(&s, "appa", "recent.txt");
    assert_eq!(snap, vec!["d".to_string(), "e".to_string(), "f".to_string()]);
    assert_eq!(get_last_from_buffer(&s, "appa", "recent.txt"), "f");
}

#[test]
fn buffer_drops_empty_values() {
    let mut s = PrefStore::new();
    savebuffer(&mut s, "appa", "buf.txt", "x", 5);
    savebuffer(&mut s, "appa", "buf.txt", "", 5);
    savebuffer(&mut s, "appa", "buf.txt", "y", 5);
    let snap = getbuffer(&s, "appa", "buf.txt");
    assert_eq!(snap, vec!["x".to_string(), "y".to_string()]);
}

#[test]
fn buffer_zero_and_negative_capacity_keep_nothing() {
    let mut s = PrefStore::new();
    savebuffer(&mut s, "appa", "tight.txt", "a", 0);
    assert!(getbuffer(&s, "appa", "tight.txt").is_empty());
    savebuffer(&mut s, "appa", "tight.txt", "b", -1);
    assert!(getbuffer(&s, "appa", "tight.txt").is_empty());
    assert_eq!(get_last_from_buffer(&s, "appa", "tight.txt"), "");
}

#[test]
fn enumeration_lists_all_matching_files() {
    let mut s = PrefStore::new();
    savecustom(&mut s, "myapp", "custom1.txt", "value1").unwrap();
    savecustom(&mut s, "myapp", "custom2.txt", "value2").unwrap();
    savecustom(&mut s, "myapp", "other.json", "{}").unwrap();
    savecustom(&mut s, "elsewhere", "custom3.txt", "value3").unwrap();
    let mut all = getallcustom(&s, "myapp", "txt");
    all.sort();
    assert_eq!(
        all,
        vec![
            ("custom1".to_string(), "value1".to_string()),
            ("custom2".to_string(), "value2".to_string()),
        ]
    );
}

#[test]
fn create_only_fails_on_conflict() {
    let mut s = PrefStore::new();
    initcustomfile(&mut s, "appa", "f.txt", "v1").unwrap();
    let second = initcustomfile(&mut s, "appa", "f.txt", "v2");
    assert_eq!(second.unwrap_err(), PrefError::AlreadyExists);
    assert_eq!(getcustom(&mut s, "appa", "f.txt", "d").unwrap(), "v1");
}

#[test]
fn clearall_removes_by_extension() {
    let mut s = PrefStore::new();
    savecustom(&mut s, "appa", "a.log", "1").unwrap();
    savecustom(&mut s, "appa", "deep/b.log", "2").unwrap();
    savecustom(&mut s, "appa", "keep.txt", "3").unwrap();
    clearall(&mut s, "appa", "log").unwrap();
    assert!(getallcustom(&s, "appa", "log").is_empty());
    assert_eq!(getcustom(&mut s, "appa", "keep.txt", "d").unwrap(), "3");
}
