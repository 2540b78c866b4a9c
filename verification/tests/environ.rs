use std::collections::HashMap;

use dome::environ::{merge_entries, merge_environ};

fn inherited(entries: &[&str]) -> Vec<Vec<u8>> {
    entries.iter().map(|e| e.as_bytes().to_vec()).collect()
}

fn names(result: &[Vec<u8>]) -> Vec<String> {
    result.iter().map(|c| String::from_utf8(c.clone()).unwrap()).collect()
}

fn pairs(overrides: HashMap<String, String>) -> Vec<(String, String)> {
    overrides.into_iter().collect()
}

#[test]
fn merge_environ_inherits_when_nothing_is_overridden() {
    assert!(merge_environ(&pairs(HashMap::new()), &inherited(&["PATH=/usr/bin"])).is_none());
}

#[test]
fn merge_entries_replaces_an_inherited_entry() {
    let base = inherited(&["PATH=/usr/bin", "HOME=/Users/x"]);
    let overrides = pairs(HashMap::from([("PATH".to_string(), "/opt/bin".to_string())]));
    let merged = names(&merge_entries(&base, &overrides));
    assert!(merged.contains(&"PATH=/opt/bin".to_string()));
    assert_eq!(merged.iter().filter(|e| e.starts_with("PATH=")).count(), 1);
}

#[test]
fn merge_entries_keeps_an_entry_no_override_names() {
    let base = inherited(&["PATH=/usr/bin", "HOME=/Users/x"]);
    let overrides = pairs(HashMap::from([("PATH".to_string(), "/opt/bin".to_string())]));
    let merged = names(&merge_entries(&base, &overrides));
    assert!(merged.contains(&"HOME=/Users/x".to_string()));
}

#[test]
fn merge_entries_adds_an_override_not_inherited() {
    let base = inherited(&["PATH=/usr/bin"]);
    let overrides = pairs(HashMap::from([("DOME_TEST".to_string(), "1".to_string())]));
    let merged = names(&merge_entries(&base, &overrides));
    assert!(merged.contains(&"DOME_TEST=1".to_string()));
}

#[test]
fn merged_environment_keeps_inherited_order_then_overrides() {
    let base = inherited(&["A=1", "B=2", "C=3"]);
    let overrides = vec![("B".to_string(), "x".to_string()), ("D".to_string(), "4".to_string())];
    let merged = names(&merge_entries(&base, &overrides));
    assert_eq!(merged, vec!["A=1", "C=3", "B=x", "D=4"]);
}

#[test]
fn a_name_without_value_is_still_a_name() {
    let base = inherited(&["FLAG", "PATH=/usr/bin"]);
    let overrides = vec![("FLAG".to_string(), "on".to_string())];
    let merged = names(&merge_entries(&base, &overrides));
    assert_eq!(merged, vec!["PATH=/usr/bin", "FLAG=on"]);
}

#[test]
fn entries_holding_nul_are_left_out() {
    let mut base = inherited(&["A=1"]);
    base.push(b"BAD=x\0y".to_vec());
    let overrides = vec![("C".to_string(), "a\0b".to_string()), ("D".to_string(), "2".to_string())];
    let merged = names(&merge_entries(&base, &overrides));
    assert_eq!(merged, vec!["A=1", "D=2"]);
}

#[test]
fn only_the_name_before_the_first_equals_is_compared() {
    let base = inherited(&["X=a=b", "X2=c"]);
    let overrides = vec![("X".to_string(), "new".to_string())];
    let merged = names(&merge_entries(&base, &overrides));
    assert_eq!(merged, vec!["X2=c", "X=new"]);
}
