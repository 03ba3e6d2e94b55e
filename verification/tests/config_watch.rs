//! Which file events concern the config.

use relay_core::config_watch::{FileNames, QUIET_MS};

const CONFIG: &str = "/Users/me/Library/Application Support/Relay/config.json";

fn names(list: &[&str]) -> Vec<Option<String>> {
    list.iter().map(|name| Some(name.to_string())).collect()
}

#[test]
fn a_save_touches_the_config_and_its_temporary_file() {
    let files = FileNames::of(CONFIG);
    assert_eq!(files.config, "config.json");
    assert_eq!(files.tmp, "config.json.tmp");
}

#[test]
fn a_path_without_a_directory_names_itself() {
    let files = FileNames::of("config.json");
    assert_eq!(files.config, "config.json");
    assert_eq!(files.tmp, "config.json.tmp");
}

#[test]
fn an_event_on_either_file_concerns_the_config() {
    let files = FileNames::of(CONFIG);
    assert!(files.matches(&names(&["config.json"])));
    assert!(files.matches(&names(&["config.json.tmp"])));
    assert!(files.matches(&names(&["other.json", "config.json"])));
}

#[test]
fn an_event_on_another_file_in_the_directory_is_ignored() {
    let files = FileNames::of(CONFIG);
    assert!(!files.matches(&names(&["other.json"])));
    assert!(!files.matches(&names(&["config.json.bak"])));
    assert!(!files.matches(&[None]));
    assert!(!files.matches(&[]));
}

#[test]
fn a_burst_settles_after_three_hundred_milliseconds() {
    assert_eq!(QUIET_MS, 300);
}
