//! The store exercised end to end on an in-memory model: saving, reading
//! with and without defaults, clearing, and bulk listing.

use prefstore::{
    clearcustom, clearpreference, ems, getall, getallcustomwithin, getcustom, getpreference,
    savecustom, savepreference, PrefStore,
};

#[test]
fn trvy() {
    let s = PrefStore::new();
    getall(&s, "perlink").is_empty();
}

#[test]
fn test_getall() {
    let mut s = PrefStore::new();
    let _ = savecustom(&mut s, "myapp", "custom1.txt", "value1");
    let _ = savecustom(&mut s, "myapp", "custom2.txt", "value2");
    let all_custom = getall(&s, "myapp");
    assert_eq!(all_custom.len(), 2);
    assert!(all_custom.contains(&("custom1".to_string(), "value1".to_string())));
    assert!(all_custom.contains(&("custom2".to_string(), "value2".to_string())));
}

#[test]
fn test_savecustom() {
    let mut s = PrefStore::new();
    savecustom(&mut s, "myapp", "custom1", "value1").unwrap();
    assert_eq!(getcustom(&mut s, "myapp", "custom1", "default").unwrap(), "value1");
}

#[test]
fn test_clearcustom() {
    let mut s = PrefStore::new();
    savecustom(&mut s, "myapp", "custom1", "value1").unwrap();
    clearcustom(&mut s, "myapp", "custom1");
    assert_eq!(getcustom(&mut s, "myapp", "custom1", "default").unwrap(), "default");
}

#[test]
fn test_savepreference() {
    let mut s = PrefStore::new();
    let app_name = "myapp";
    let key = "mykey";
    let value = "myvalue";
    let _ = savepreference(&mut s, app_name, key, value);

    // The preference was saved correctly.
    let result = getpreference(&mut s, app_name, key, "defaultvalue");
    assert_eq!(result, "myvalue");

    // The default value is returned when the preference does not exist.
    let result = getpreference(&mut s, app_name, "nonexistentkey", "defaultvalue");
    assert_eq!(result, "defaultvalue");

    // The preference can be cleared.
    let _ = clearpreference(&mut s, app_name, key);
    let result = getpreference(&mut s, app_name, key, "defaultvalue");
    assert_eq!(result, "defaultvalue");

    // The ems trait converts the store's textual values.
    let bool_value = "true".to_string().tobool();
    assert_eq!(bool_value, true);

    let i32_value = "42".to_string().toi32().unwrap();
    assert_eq!(i32_value, 42);

    let i128_value = "99999999999999999999999999999999999999".to_string().toi128().unwrap();
    assert_eq!(i128_value, 99999999999999999999999999999999999999);

    // Floating-point parsing stays with the standard library.
    let f64_value = "3.14".to_string().parse::<f64>().unwrap();
    assert_eq!(f64_value, 3.14);
}

#[test]
fn globtest() {
    let s = PrefStore::new();
    println!(
        "1--------->{:?}",
        getallcustomwithin(&s, "filedime", "custom_scripts", "fds").unwrap_or_default()
    );
}
