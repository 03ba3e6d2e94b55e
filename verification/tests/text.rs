//! Text helpers, on concrete values.

use relay_core::config::{Config, DeviceConfig, Host, Language, Options};
use relay_core::log::LogEntry;
use relay_core::text::{
    ascii_space, chars_of, decimal_text, eq_ignore_ascii_case, hex4_text, hex_text, lower,
    parse_uint, push_decimal, push_str, range_eq, str_eq, string_of, trim_bounds, unicode_space,
    unpadded_bounds,
};
use relay_core::types::{DeviceId, DeviceRole};

#[test]
fn characters_go_in_and_come_back_out_unchanged() {
    let v = chars_of("héllo");
    assert_eq!(v, vec!['h', 'é', 'l', 'l', 'o']);
    assert_eq!(string_of(&v, 1, 4), "éll");
    assert_eq!(string_of(&v, 2, 2), "");
}

#[test]
fn strings_are_joined_in_order() {
    assert_eq!(relay_core::text::concat("display ", "AOC"), "display AOC");
    let mut s = String::from("a");
    push_str(&mut s, "bc");
    assert_eq!(s, "abc");
    push_decimal(&mut s, 407);
    assert_eq!(s, "abc407");
}

#[test]
fn numbers_are_written_as_the_standard_library_writes_them() {
    for n in [0u64, 7, 10, 255, 1_000_000, u64::MAX] {
        assert_eq!(decimal_text(n), n.to_string());
    }
    for v in [0u32, 0x51, 0xE00002C2, u32::MAX] {
        assert_eq!(hex_text(v), format!("{v:08x}"));
    }
    for v in [0u16, 0x46d, 0xb023, u16::MAX] {
        assert_eq!(hex4_text(v), format!("{v:04x}"));
    }
}

#[test]
fn whitespace_is_classified_as_the_standard_library_does() {
    for c in [' ', '\t', '\n', '\r', '\u{0C}', '\u{A0}', '\u{2003}', '\u{3000}', 'a', '\0', '\u{0B}'] {
        assert_eq!(unicode_space(c), c.is_whitespace(), "{c:?}");
        assert_eq!(ascii_space(c), c.is_ascii_whitespace(), "{c:?}");
    }
}

#[test]
fn trimming_finds_what_trim_keeps() {
    let v = chars_of("  zh-Hans \t");
    let (lo, hi) = trim_bounds(&v, 0, v.len());
    assert_eq!(string_of(&v, lo, hi), "  zh-Hans \t".trim());

    let v = chars_of("\0 ABCD1234\0\0");
    let (lo, hi) = unpadded_bounds(&v);
    assert_eq!(string_of(&v, lo, hi), "ABCD1234");
    let v = chars_of("\0\0");
    let (lo, hi) = unpadded_bounds(&v);
    assert_eq!(lo, hi);
}

#[test]
fn comparisons_are_exact_or_ignore_ascii_case_only() {
    assert!(str_eq("MacOS", "MacOS"));
    assert!(!str_eq("MacOS", "macos"));
    assert!(eq_ignore_ascii_case(&chars_of("ABCD-ef"), &chars_of("abcd-EF")));
    assert!(!eq_ignore_ascii_case(&chars_of("É"), &chars_of("é")));
    assert!(!eq_ignore_ascii_case(&chars_of("abc"), &chars_of("abcd")));
    assert_eq!(lower('Q'), 'q');
    assert_eq!(lower('é'), 'é');
    let a = chars_of("switch:2");
    let b = chars_of("switch:");
    assert!(range_eq(&a, 0, 7, &b, 0, 7));
    assert!(!range_eq(&a, 1, 8, &b, 0, 7));
}

#[test]
fn numbers_are_read_with_a_bound() {
    let v = chars_of("255");
    assert_eq!(parse_uint(&v, 0, 3, 10, 255), Some(255));
    let v = chars_of("256");
    assert_eq!(parse_uint(&v, 0, 3, 10, 255), None);
    let v = chars_of("x046d");
    assert_eq!(parse_uint(&v, 1, 5, 16, 0xFFFF), Some(0x46d));
    let v = chars_of("+7");
    assert_eq!(parse_uint(&v, 0, 2, 10, 255), Some(7));
    let v = chars_of("");
    assert_eq!(parse_uint(&v, 0, 0, 10, 255), None);
    let v = chars_of("1 2");
    assert_eq!(parse_uint(&v, 0, 3, 10, 255), None);
}

#[test]
fn copies_and_small_updates_keep_everything_else() {
    let id = DeviceId("046d:b366".to_string());
    assert_eq!(id.copied(), id);

    let entry = LogEntry {
        ts_ms: 1,
        level: "INFO".to_string(),
        target: "relay".to_string(),
        message: "switching".to_string(),
    };
    let copy = entry.copied();
    assert_eq!(copy.ts_ms, 1);
    assert_eq!(copy.message, "switching");

    let device = DeviceConfig {
        id,
        name: "MX Mechanical".to_string(),
        role: DeviceRole::Keyboard,
        transport: "ble".to_string(),
        serial: Some("ABCD".to_string()),
        is_trigger: true,
        follow: false,
        leave_to: None,
    };
    let moved = device.with_leave_to(Some(2));
    assert_eq!(moved.leave_to, Some(2));
    assert_eq!(DeviceConfig { leave_to: None, ..moved }, device);
}

#[test]
fn the_options_default_to_on_and_to_the_system_language() {
    assert!(Options::default_switch_back());
    assert!(Options::default_pull_on_arrival());
    assert_eq!(Options::default_language(), Language::Auto);
}

#[test]
fn only_declared_hosts_are_hosts() {
    let cfg = Config {
        schema_version: 1,
        this_host: 1,
        hosts: vec![
            Host { index: 1, name: "Bam.Work".to_string() },
            Host { index: 2, name: "Bam.Mini".to_string() },
        ],
        displays: Vec::new(),
        devices: Vec::new(),
        timing: relay_core::config::Timing { debounce_ms: 800, cooldown_ms: 5000, ddc_retries: 3 },
        hotkeys: Vec::new(),
        options: Options {
            switch_back_on_reconnect: true,
            pull_on_arrival: true,
            launch_at_login: true,
            language: Language::Auto,
        },
    };
    assert!(cfg.has_host(1));
    assert!(cfg.has_host(2));
    assert!(!cfg.has_host(0));
    assert!(!cfg.has_host(3));
}
