use jmapsyncd::maildir::filename::parse_filename;
use jmapsyncd::maildir::{cur_file_name, sort_names};

#[test]
fn cur_name_adds_flags() {
    assert_eq!(cur_file_name("1700000000.host1", "S"), "1700000000.host1:2,S");
}

#[test]
fn cur_name_without_flags() {
    assert_eq!(cur_file_name("1700000000.host1", ""), "1700000000.host1:2,");
}

#[test]
fn cur_name_normalizes_flags() {
    assert_eq!(cur_file_name("1700000000.host1", "SR"), "1700000000.host1:2,RS");
}

#[test]
fn cur_name_replaces_existing_suffix() {
    assert_eq!(cur_file_name("1.h:2,T:2,S", "FX"), "1.h:2,F");
}

#[test]
fn cur_name_keeps_parts_and_sets_flags() {
    let name = cur_file_name("1700000000.host.pid:2,T", "SD");
    let parts = parse_filename(&name).unwrap();
    assert_eq!(parts.timestamp, "1700000000");
    assert_eq!(parts.uniquifier, "host.pid");
    assert_eq!(parts.flags, "DS");
}

fn names(list: &[&str]) -> Vec<Vec<u8>> {
    list.iter().map(|s| s.as_bytes().to_vec()).collect()
}

#[test]
fn sort_names_orders_bytewise() {
    let sorted = sort_names(names(&["b", "a:2,S", "a", "B", "ab", ""]));
    assert_eq!(sorted, names(&["", "B", "a", "a:2,S", "ab", "b"]));
}

#[test]
fn sort_names_keeps_duplicates() {
    let sorted = sort_names(names(&["x", "y", "x"]));
    assert_eq!(sorted, names(&["x", "x", "y"]));
}

#[test]
fn sort_names_empty() {
    assert!(sort_names(Vec::new()).is_empty());
}

#[test]
fn sort_names_non_utf8() {
    let sorted = sort_names(vec![vec![0xff], vec![0x61, 0x80], vec![0x61]]);
    assert_eq!(sorted, vec![vec![0x61], vec![0x61, 0x80], vec![0xff]]);
}
