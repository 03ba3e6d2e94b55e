//! What the command line asks for.

use relay_core::cli::{next_host, parse, read_timeout_ms, Command, Target, QUICK_TIMEOUT_MS, SWITCH_TIMEOUT_MS};
use relay_core::paths::app_bundle_of;

fn argv(args: &[&str]) -> Vec<String> {
    args.iter().map(|arg| (*arg).to_string()).collect()
}

fn parsed(args: &[&str]) -> Command {
    parse(&argv(args)).expect("the arguments parse")
}

#[test]
fn no_arguments_run_the_resident_app() {
    assert_eq!(parsed(&[]), Command::Run);
}

#[test]
fn status_has_a_flag_form_and_a_subcommand_form() {
    assert_eq!(parsed(&["status"]), Command::Status);
    assert_eq!(parsed(&["--status"]), Command::Status);
}

#[test]
fn the_remaining_commands_parse() {
    assert_eq!(parsed(&["--settings"]), Command::Settings);
    assert_eq!(parsed(&["--devices"]), Command::Devices);
    assert_eq!(parsed(&["--displays"]), Command::Displays);
    assert_eq!(parsed(&["--help"]), Command::Help);
    assert_eq!(parsed(&["-h"]), Command::Help);
}

#[test]
fn switch_takes_a_host_slot_and_its_flags_in_any_order() {
    assert_eq!(
        parsed(&["switch", "1"]),
        Command::Switch {
            target: Target::Host(1),
            dry_run: false,
            no_spawn: false,
        }
    );
    assert_eq!(
        parsed(&["switch", "--dry-run", "2", "--no-spawn"]),
        Command::Switch {
            target: Target::Host(2),
            dry_run: true,
            no_spawn: true,
        }
    );
    assert_eq!(
        parsed(&["switch", "next"]),
        Command::Switch {
            target: Target::Next,
            dry_run: false,
            no_spawn: false,
        }
    );
}

#[test]
fn misuse_is_reported_rather_than_guessed_at() {
    for args in [
        vec!["switch"],
        vec!["switch", "left"],
        vec!["switch", "1", "2"],
        vec!["switch", "1", "--wat"],
        vec!["switch", "999"],
        vec!["status", "now"],
        vec!["--devices", "all"],
        vec!["--displays", "all"],
        vec!["wizard"],
    ] {
        assert!(
            parse(&argv(&args)).is_err(),
            "{args:?} should not have parsed"
        );
    }
}

fn hosts() -> Vec<(u8, String)> {
    vec![
        (1, "Bam.Work".to_string()),
        (2, "Bam.Mini".to_string()),
        (3, "Bam.Spare".to_string()),
    ]
}

#[test]
fn next_host_follows_the_configured_order() {
    assert_eq!(next_host(&hosts(), 1), Some(2));
    assert_eq!(next_host(&hosts(), 2), Some(3));
}

#[test]
fn next_host_wraps_around() {
    assert_eq!(next_host(&hosts(), 3), Some(1));
    assert_eq!(next_host(&[(1, "only".to_string())], 1), Some(1));
}

#[test]
fn next_host_needs_this_machine_among_the_hosts() {
    assert_eq!(next_host(&hosts(), 0), None);
    assert_eq!(next_host(&[], 1), None);
}

#[test]
fn an_installed_binary_resolves_to_its_bundle() {
    assert_eq!(
        app_bundle_of("/Applications/Relay-dev.app/Contents/MacOS/relay"),
        Some("/Applications/Relay-dev.app".to_string())
    );
}

#[test]
fn a_loose_binary_has_no_bundle() {
    for exe in [
        "/Users/me/dev-relay/target/debug/relay",
        "/usr/local/bin/relay",
        "/Applications/Relay-dev.app/Contents/Resources/relay",
        "/tmp/Contents/MacOS/relay",
    ] {
        assert_eq!(app_bundle_of(exe), None, "{exe}");
    }
}

#[test]
fn misuse_says_what_was_wrong() {
    assert_eq!(parse(&argv(&["wizard"])), Err("unknown command 'wizard'".to_string()));
    assert_eq!(parse(&argv(&["switch"])), Err("switch needs a host slot or 'next'".to_string()));
    assert_eq!(parse(&argv(&["switch", "1", "--wat"])), Err("unknown option '--wat'".to_string()));
    assert_eq!(parse(&argv(&["switch", "1", "2"])), Err("unexpected argument '2'".to_string()));
    assert_eq!(
        parse(&argv(&["switch", "999"])),
        Err("'999' is not a host slot; give a number or 'next'".to_string())
    );
    assert_eq!(parse(&argv(&["status", "now"])), Err("unexpected argument 'now'".to_string()));
}

#[test]
fn only_a_real_switch_waits_long() {
    assert_eq!(read_timeout_ms(true, false), SWITCH_TIMEOUT_MS);
    assert_eq!(read_timeout_ms(true, true), QUICK_TIMEOUT_MS);
    assert_eq!(read_timeout_ms(false, false), QUICK_TIMEOUT_MS);
}
