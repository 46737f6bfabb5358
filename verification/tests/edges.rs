//! Edge cases: empty keys, appends, line-oriented reads, path derivation,
//! pattern failures, sub-path listings, and the parsing helpers.

use prefstore::{
    appendcustom, appendcustomnewline, clearall, custom_file_name, default_name, ems,
    getallcustom, getallcustomwithin, getcustom, opencustomperlinetovec, path_under, savebuffer,
    savecustom, getbuffer, PrefError, PrefStore,
};

#[test]
fn empty_key_reads_empty_and_stores_nothing() {
    let mut s = PrefStore::new();
    assert_eq!(getcustom(&mut s, "appa", "", "default").unwrap(), "");
    assert!(getallcustom(&s, "appa", "txt").is_empty());
}

#[test]
fn append_accumulates_content() {
    let mut s = PrefStore::new();
    appendcustom(&mut s, "appa", "log.txt", "one").unwrap();
    appendcustom(&mut s, "appa", "log.txt", " two").unwrap();
    assert_eq!(getcustom(&mut s, "appa", "log.txt", "d").unwrap(), "one two");
}

#[test]
fn append_newline_terminates_lines() {
    let mut s = PrefStore::new();
    appendcustomnewline(&mut s, "appa", "log.txt", "first").unwrap();
    appendcustomnewline(&mut s, "appa", "log.txt", "second").unwrap();
    assert_eq!(getcustom(&mut s, "appa", "log.txt", "d").unwrap(), "first\nsecond\n");
    let lines = opencustomperlinetovec(&s, "appa", "log.txt").unwrap();
    assert_eq!(lines, vec!["first".to_string(), "second".to_string()]);
}

#[test]
fn read_lines_of_absent_file_is_empty() {
    let s = PrefStore::new();
    assert!(opencustomperlinetovec(&s, "appa", "nothing.txt").unwrap().is_empty());
}

#[test]
fn derived_names_follow_the_format() {
    assert_eq!(default_name("MyKey".to_string()), "mykey.txt");
    assert_eq!(default_name("plain".to_string()), "plain.txt");
    assert_eq!(custom_file_name("AsIs.JSON".to_string()), "AsIs.JSON");
    assert_eq!(path_under("/home/u/.config", "appa", "k.txt"), "/home/u/.config/appa/k.txt");
}

#[test]
fn bad_extension_is_a_pattern_error() {
    let mut s = PrefStore::new();
    savecustom(&mut s, "appa", "a.txt", "1").unwrap();
    let listed = getallcustomwithin(&s, "appa", "", "[");
    assert_eq!(listed.unwrap_err(), PrefError::PatternError);
    let cleared = clearall(&mut s, "appa", "[");
    assert_eq!(cleared.unwrap_err(), PrefError::PatternError);
    // The failed clear left everything in place.
    assert_eq!(getcustom(&mut s, "appa", "a.txt", "d").unwrap(), "1");
}

#[test]
fn sub_path_restricts_the_listing() {
    let mut s = PrefStore::new();
    savecustom(&mut s, "appa", "scripts/one.fds", "s1").unwrap();
    savecustom(&mut s, "appa", "top.fds", "t").unwrap();
    let within = getallcustomwithin(&s, "appa", "scripts", "fds").unwrap();
    assert_eq!(within, vec![("one".to_string(), "s1".to_string())]);
    let mut everywhere = getallcustomwithin(&s, "appa", "", "fds").unwrap();
    everywhere.sort();
    assert_eq!(
        everywhere,
        vec![("one".to_string(), "s1".to_string()), ("top".to_string(), "t".to_string())]
    );
}

#[test]
fn duplicate_base_names_last_match_wins() {
    let mut s = PrefStore::new();
    savecustom(&mut s, "appa", "a/name.txt", "first").unwrap();
    savecustom(&mut s, "appa", "b/name.txt", "second").unwrap();
    let all = getallcustom(&s, "appa", "txt");
    assert_eq!(all, vec![("name".to_string(), "second".to_string())]);
}

#[test]
fn buffer_value_with_embedded_newline_splits_on_read() {
    let mut s = PrefStore::new();
    // A documented limitation of the plain-text format: an embedded newline
    // reads back as an entry separator.
    savebuffer(&mut s, "appa", "buf.txt", "one\ntwo", 5);
    let snap = getbuffer(&s, "appa", "buf.txt");
    assert_eq!(snap, vec!["one".to_string(), "two".to_string()]);
}

#[test]
fn parsing_helpers_accept_and_refuse() {
    assert!(!"false".to_string().tobool());
    assert!(!"f".to_string().tobool());
    assert!("t".to_string().tobool());
    assert!(!"TRUE".to_string().tobool());
    assert_eq!("-7".to_string().toi32().unwrap(), -7);
    assert!("abc".to_string().toi32().is_err());
    assert!("".to_string().toi32().is_err());
    assert!("99999999999".to_string().toi32().is_err());
    assert_eq!("99999999999".to_string().toi128().unwrap(), 99999999999i128);
}

#[test]
fn overwriting_save_replaces_content() {
    let mut s = PrefStore::new();
    savecustom(&mut s, "appa", "f.txt", "old").unwrap();
    savecustom(&mut s, "appa", "f.txt", "new").unwrap();
    assert_eq!(getcustom(&mut s, "appa", "f.txt", "d").unwrap(), "new");
    let all = getallcustom(&s, "appa", "txt");
    assert_eq!(all.len(), 1);
}

#[test]
fn derived_paths_end_with_their_parts() {
    match prefstore::config_folder_path("appa") {
        Ok(p) => assert!(p.ends_with("/appa")),
        Err(e) => assert_eq!(e, PrefError::ConfigDirectoryUnavailable),
    }
    match prefstore::config_path("appa", "MyKey") {
        Ok(p) => assert!(p.ends_with("/appa/mykey.txt")),
        Err(e) => assert_eq!(e, PrefError::ConfigDirectoryUnavailable),
    }
    match prefstore::customfile_path("appa", "File.json") {
        Ok(p) => assert!(p.ends_with("/appa/File.json")),
        Err(e) => assert_eq!(e, PrefError::ConfigDirectoryUnavailable),
    }
    match prefstore::prefstore_directory(&"appa".to_string()) {
        Ok(p) => assert!(p.ends_with("/appa")),
        Err(e) => assert_eq!(e, PrefError::ConfigDirectoryUnavailable),
    }
}
