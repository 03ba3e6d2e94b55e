//! The switch state machine, event by event.

use relay_core::config::{
    Config, DeviceConfig, DisplayConfig, Host, Language, Options, Timing, SCHEMA_VERSION,
};
use relay_core::coordinator::{Action, Coordinator, Event, Millis, State};
use relay_core::types::{DeviceId, DeviceRole, TriggerEvent};

/// Where the caller's clock stands when a test begins.
const START: Millis = 1_000_000;

const KEYBOARD_ID: &str = "046d:b366";
const MOUSE_ID: &str = "046d:b023";

/// Two hosts, this machine is host 0, one display, a trigger keyboard and a
/// following mouse.
fn two_host_config() -> Config {
    Config {
        schema_version: SCHEMA_VERSION,
        this_host: 0,
        hosts: vec![
            Host {
                index: 0,
                name: "Bam.Work".to_string(),
            },
            Host {
                index: 1,
                name: "Bam.Mini".to_string(),
            },
        ],
        displays: vec![DisplayConfig {
            edid_uuid: "B9B87925-0000-0000-0000-000000000000".to_string(),
            name: "AOC U2790R3B".to_string(),
            input_by_host: vec![(0, 17), (1, 18)],
        }],
        devices: vec![
            DeviceConfig {
                id: DeviceId(KEYBOARD_ID.to_string()),
                name: "MX Mechanical".to_string(),
                role: DeviceRole::Keyboard,
                transport: "ble".to_string(),
                serial: None,
                is_trigger: true,
                follow: false,
                leave_to: None,
            },
            DeviceConfig {
                id: DeviceId(MOUSE_ID.to_string()),
                name: "MX Master 3".to_string(),
                role: DeviceRole::Mouse,
                transport: "ble".to_string(),
                serial: None,
                is_trigger: false,
                follow: true,
                leave_to: None,
            },
        ],
        timing: Timing {
            debounce_ms: 800,
            cooldown_ms: 5000,
            ddc_retries: 3,
        },
        hotkeys: vec![
            ("0".to_string(), "Ctrl+Alt+1".to_string()),
            ("1".to_string(), "Ctrl+Alt+2".to_string()),
        ],
        options: Options {
            switch_back_on_reconnect: true,
            pull_on_arrival: true,
            launch_at_login: true,
            language: Language::Auto,
        },
    }
}

/// The same, plus a third host; the keyboard names host 2 as its leave target.
fn three_host_config() -> Config {
    let mut cfg = two_host_config();
    cfg.hosts.push(Host {
        index: 2,
        name: "Bam.Studio".to_string(),
    });
    set_input(&mut cfg.displays[0], 2, 27);
    cfg.devices[0].leave_to = Some(2);
    cfg
}

/// Maps `host` to `code` on `display`, replacing any entry for that host.
fn set_input(display: &mut DisplayConfig, host: u8, code: u8) {
    match display.input_by_host.iter_mut().find(|(h, _)| *h == host) {
        Some(entry) => entry.1 = code,
        None => display.input_by_host.push((host, code)),
    }
}

/// Drops every entry for `host` from `display`.
fn remove_input(display: &mut DisplayConfig, host: u8) {
    display.input_by_host.retain(|(h, _)| *h != host);
}

fn keyboard() -> DeviceId {
    DeviceId(KEYBOARD_ID.to_string())
}

fn mouse() -> DeviceId {
    DeviceId(MOUSE_ID.to_string())
}

fn coordinator() -> (Coordinator, Millis) {
    (Coordinator::new(two_host_config()), START)
}

/// The id of the second trigger device added by
/// [`coordinator_with_a_second_trigger`].
const SECOND_TRIGGER_ID: &str = "046d:b365";

fn second_trigger() -> DeviceId {
    DeviceId(SECOND_TRIGGER_ID.to_string())
}

/// The same, plus a second keyboard that is also a trigger. Two triggers
/// are allowed; a trigger that also follows is not (see
/// `ConfigError::TriggerCannotFollow`), so the "another trigger left"
/// scenario is played by a second trigger device.
fn coordinator_with_a_second_trigger() -> (Coordinator, Millis) {
    let mut cfg = two_host_config();
    let mut extra = cfg.devices[0].clone();
    extra.id = second_trigger();
    extra.name = "MX Keys Mini".to_string();
    cfg.devices.push(extra);
    cfg.validate().expect("two trigger devices are valid");
    (Coordinator::new(cfg), START)
}

/// Three hosts and no `leave_to`, so the keyboard has nowhere to leave to
/// (see [`plan::target_for_leave`]). Built by hand rather than through
/// `validate`, which rejects exactly this pairing today
/// (`ConfigError::MissingLeaveTo`); the coordinator still carries the
/// branch, and this is what reaches it.
fn coordinator_without_a_leave_target() -> (Coordinator, Millis) {
    let mut cfg = three_host_config();
    cfg.devices[0].leave_to = None;
    (Coordinator::new(cfg), START)
}

/// The same, with `switch_back_on_reconnect` turned off.
fn coordinator_without_switch_back() -> (Coordinator, Millis) {
    let mut cfg = two_host_config();
    cfg.options.switch_back_on_reconnect = false;
    (Coordinator::new(cfg), START)
}

/// The same, with `pull_on_arrival` turned off.
fn coordinator_without_pull_on_arrival() -> (Coordinator, Millis) {
    let mut cfg = two_host_config();
    cfg.options.pull_on_arrival = false;
    (Coordinator::new(cfg), START)
}

/// Drives a coordinator to `Cooldown` and returns the moment the switch finished.
fn into_cooldown(c: &mut Coordinator, now: Millis) -> Millis {
    c.handle(Event::Trigger(TriggerEvent::DeviceLeft(keyboard())), now);
    let fired = now + 800;
    c.handle(Event::TimerFired, fired);
    c.handle(Event::SwitchFinished, fired);
    fired
}

/// Drives a coordinator through one whole switch that hands this Mac over
/// to the other host, and out the far end of the cooldown. Returns the
/// moment it went idle; `last_target` then points at the other host.
fn into_idle_after_a_switch_away(c: &mut Coordinator, now: Millis) -> Millis {
    let finished = into_cooldown(c, now);
    let idle = finished + 5000;
    c.handle(Event::TimerFired, idle);
    assert!(matches!(c.state(), State::Idle), "{:?}", c.state());
    idle
}

#[test]
fn trigger_leaving_arms_the_debounce_timer() {
    let (mut c, now) = coordinator();
    let action = c.handle(Event::Trigger(TriggerEvent::DeviceLeft(keyboard())), now);
    let deadline = now + 800;
    assert_eq!(action, Action::ArmTimer(deadline));
    match c.state() {
        State::Confirming {
            target,
            trigger,
            deadline: d,
            from_arrival,
        } => {
            assert_eq!(*target, 1);
            assert_eq!(*trigger, keyboard());
            assert_eq!(*d, deadline);
            assert!(!*from_arrival, "this debounce came from a leave");
        }
        other => panic!("expected Confirming, got {other:?}"),
    }
}

#[test]
fn a_non_trigger_device_leaving_does_nothing() {
    let (mut c, now) = coordinator();
    let action = c.handle(
        Event::Trigger(TriggerEvent::DeviceLeft(DeviceId(MOUSE_ID.to_string()))),
        now,
    );
    assert!(matches!(action, Action::Ignore(_)));
    assert!(matches!(c.state(), State::Idle));
}

#[test]
fn reconnecting_within_the_debounce_cancels_the_switch() {
    let (mut c, now) = coordinator();
    c.handle(Event::Trigger(TriggerEvent::DeviceLeft(keyboard())), now);
    let action = c.handle(
        Event::Trigger(TriggerEvent::DeviceArrived(keyboard())),
        now + 100,
    );
    assert_eq!(action, Action::CancelTimer);
    assert!(matches!(c.state(), State::Idle));
}

#[test]
fn another_device_arriving_while_confirming_is_ignored() {
    let (mut c, now) = coordinator();
    c.handle(Event::Trigger(TriggerEvent::DeviceLeft(keyboard())), now);
    let action = c.handle(
        Event::Trigger(TriggerEvent::DeviceArrived(DeviceId(MOUSE_ID.to_string()))),
        now + 100,
    );
    assert!(matches!(action, Action::Ignore(_)));
    assert!(matches!(c.state(), State::Confirming { .. }));
}

#[test]
fn the_debounce_expiring_starts_an_automatic_switch() {
    let (mut c, now) = coordinator();
    c.handle(Event::Trigger(TriggerEvent::DeviceLeft(keyboard())), now);
    let action = c.handle(Event::TimerFired, now + 800);
    assert_eq!(
        action,
        Action::StartSwitch {
            target: 1,
            manual: false
        }
    );
    assert!(matches!(c.state(), State::Switching { target: 1, .. }));
}

#[test]
fn a_finished_switch_enters_cooldown() {
    let (mut c, now) = coordinator();
    let finished = into_cooldown(&mut c, now);
    match c.state() {
        State::Cooldown {
            until, returning, ..
        } => {
            assert_eq!(*until, finished + 5000);
            assert!(returning.is_none(), "nothing came back during this switch");
        }
        other => panic!("expected Cooldown, got {other:?}"),
    }
}

#[test]
fn cooldown_ignores_a_leaving_trigger_device() {
    let (mut c, now) = coordinator();
    let finished = into_cooldown(&mut c, now);
    let action = c.handle(
        Event::Trigger(TriggerEvent::DeviceLeft(keyboard())),
        finished + 10,
    );
    assert!(matches!(action, Action::Ignore(_)));
    assert!(matches!(c.state(), State::Cooldown { .. }));
}

#[test]
fn cooldown_ignores_a_manual_switch() {
    let (mut c, now) = coordinator();
    let finished = into_cooldown(&mut c, now);
    let action = c.handle(
        Event::Trigger(TriggerEvent::Manual {
            target: 1,
            source: "tray",
        }),
        finished + 10,
    );
    assert!(matches!(action, Action::Ignore(_)));
    assert!(matches!(c.state(), State::Cooldown { .. }));
}

#[test]
fn the_cooldown_timer_returns_to_idle() {
    let (mut c, now) = coordinator();
    let finished = into_cooldown(&mut c, now);
    let action = c.handle(Event::TimerFired, finished + 5000);
    // The timer already fired; there is nothing left to cancel.
    assert_eq!(action, Action::Ignore("cooldown finished"));
    assert!(matches!(c.state(), State::Idle));
}

#[test]
fn a_stale_timer_before_the_confirming_deadline_does_not_start_a_switch() {
    let (mut c, now) = coordinator();
    c.handle(Event::Trigger(TriggerEvent::DeviceLeft(keyboard())), now);
    let deadline = now + 800;
    let action = c.handle(Event::TimerFired, deadline - 1);
    assert_eq!(action, Action::Ignore("timer fired before deadline"));
    match c.state() {
        State::Confirming {
            target,
            deadline: d,
            ..
        } => {
            assert_eq!(*target, 1);
            assert_eq!(*d, deadline);
        }
        other => panic!("expected Confirming, got {other:?}"),
    }
}

#[test]
fn a_timer_at_the_confirming_deadline_starts_a_switch() {
    let (mut c, now) = coordinator();
    c.handle(Event::Trigger(TriggerEvent::DeviceLeft(keyboard())), now);
    let deadline = now + 800;
    let action = c.handle(Event::TimerFired, deadline);
    assert_eq!(
        action,
        Action::StartSwitch {
            target: 1,
            manual: false
        }
    );
    assert!(matches!(c.state(), State::Switching { target: 1, .. }));
}

#[test]
fn a_stale_timer_before_the_cooldown_end_does_not_return_to_idle() {
    let (mut c, now) = coordinator();
    let finished = into_cooldown(&mut c, now);
    let until = finished + 5000;
    let action = c.handle(Event::TimerFired, until - 1);
    assert_eq!(action, Action::Ignore("timer fired before cooldown end"));
    assert!(matches!(c.state(), State::Cooldown { .. }));
}

#[test]
fn a_timer_at_the_cooldown_end_returns_to_idle() {
    let (mut c, now) = coordinator();
    let finished = into_cooldown(&mut c, now);
    let until = finished + 5000;
    let action = c.handle(Event::TimerFired, until);
    assert_eq!(action, Action::Ignore("cooldown finished"));
    assert!(matches!(c.state(), State::Idle));
}

#[test]
fn switching_ignores_a_manual_switch() {
    let (mut c, now) = coordinator();
    c.handle(Event::Trigger(TriggerEvent::DeviceLeft(keyboard())), now);
    c.handle(Event::TimerFired, now + 800);
    let action = c.handle(
        Event::Trigger(TriggerEvent::Manual {
            target: 0,
            source: "hotkey",
        }),
        now + 900,
    );
    assert!(matches!(action, Action::Ignore(_)));
    assert!(matches!(c.state(), State::Switching { target: 1, .. }));
}

#[test]
fn a_manual_switch_skips_the_debounce() {
    let (mut c, now) = coordinator();
    let action = c.handle(
        Event::Trigger(TriggerEvent::Manual {
            target: 1,
            source: "cli",
        }),
        now,
    );
    assert_eq!(
        action,
        Action::StartSwitch {
            target: 1,
            manual: true
        }
    );
    assert!(matches!(c.state(), State::Switching { target: 1, .. }));
}

#[test]
fn a_manual_switch_to_an_undeclared_host_is_ignored() {
    let (mut c, now) = coordinator();
    let action = c.handle(
        Event::Trigger(TriggerEvent::Manual {
            target: 7,
            source: "cli",
        }),
        now,
    );
    assert_eq!(action, Action::Ignore("target not declared"));
    assert!(matches!(c.state(), State::Idle));
}

/// The bounce-back window: the keyboard failed to reach the other Mac and
/// came home while the switch was still running.
#[test]
fn a_trigger_returning_during_the_switch_switches_back_when_the_cooldown_ends() {
    let (mut c, now) = coordinator();
    c.handle(Event::Trigger(TriggerEvent::DeviceLeft(keyboard())), now);
    c.handle(Event::TimerFired, now + 800);

    let arrived = c.handle(
        Event::Trigger(TriggerEvent::DeviceArrived(keyboard())),
        now + 900,
    );
    assert!(matches!(arrived, Action::Ignore(_)));
    assert!(
        matches!(c.state(), State::Switching { target: 1, .. }),
        "the running switch is not interrupted: {:?}",
        c.state()
    );

    let finished = now + 1000;
    c.handle(Event::SwitchFinished, finished);
    match c.state() {
        State::Cooldown {
            until, returning, ..
        } => {
            assert_eq!(*until, finished + 5000);
            assert!(returning.is_some());
        }
        other => panic!("expected Cooldown, got {other:?}"),
    }

    let until = finished + 5000;
    let action = c.handle(Event::TimerFired, until);
    assert_eq!(
        action,
        Action::StartSwitch {
            target: 0,
            manual: false
        }
    );
    assert!(matches!(c.state(), State::Switching { target: 0, .. }));
}

#[test]
fn a_trigger_returning_does_not_switch_back_when_the_option_is_off() {
    let (mut c, now) = coordinator_without_switch_back();
    c.handle(Event::Trigger(TriggerEvent::DeviceLeft(keyboard())), now);
    c.handle(Event::TimerFired, now + 800);
    c.handle(
        Event::Trigger(TriggerEvent::DeviceArrived(keyboard())),
        now + 900,
    );
    let finished = now + 1000;
    c.handle(Event::SwitchFinished, finished);

    let action = c.handle(Event::TimerFired, finished + 5000);
    assert_eq!(action, Action::Ignore("cooldown finished"));
    assert!(matches!(c.state(), State::Idle));
}

#[test]
fn a_trigger_returning_during_the_cooldown_also_switches_back() {
    let (mut c, now) = coordinator();
    let finished = into_cooldown(&mut c, now);

    let arrived = c.handle(
        Event::Trigger(TriggerEvent::DeviceArrived(keyboard())),
        finished + 10,
    );
    assert!(matches!(arrived, Action::Ignore(_)));
    match c.state() {
        State::Cooldown { returning, .. } => assert!(returning.is_some()),
        other => panic!("expected Cooldown, got {other:?}"),
    }

    let until = finished + 5000;
    let action = c.handle(Event::TimerFired, until);
    assert_eq!(
        action,
        Action::StartSwitch {
            target: 0,
            manual: false
        }
    );
    assert!(matches!(c.state(), State::Switching { target: 0, .. }));
}

#[test]
fn a_trigger_that_leaves_again_during_the_cooldown_clears_the_pending_return() {
    let (mut c, now) = coordinator();
    let finished = into_cooldown(&mut c, now);
    c.handle(
        Event::Trigger(TriggerEvent::DeviceArrived(keyboard())),
        finished + 10,
    );

    let left = c.handle(
        Event::Trigger(TriggerEvent::DeviceLeft(keyboard())),
        finished + 20,
    );
    assert!(matches!(left, Action::Ignore(_)));
    match c.state() {
        State::Cooldown { returning, .. } => {
            assert!(returning.is_none(), "it is not on this Mac any more")
        }
        other => panic!("expected Cooldown, got {other:?}"),
    }

    let action = c.handle(Event::TimerFired, finished + 5000);
    assert_eq!(action, Action::Ignore("cooldown finished"));
    assert!(matches!(c.state(), State::Idle));
}

/// The pending return belongs to the device that armed it: a *second*
/// trigger device dropping off this Mac during the cooldown must not
/// cancel the bounce the first keyboard armed.
#[test]
fn another_trigger_device_leaving_does_not_clear_the_pending_return() {
    let (mut c, now) = coordinator_with_a_second_trigger();
    let finished = into_cooldown(&mut c, now);
    c.handle(
        Event::Trigger(TriggerEvent::DeviceArrived(keyboard())),
        finished + 10,
    );

    let left = c.handle(
        Event::Trigger(TriggerEvent::DeviceLeft(second_trigger())),
        finished + 20,
    );
    assert!(matches!(left, Action::Ignore(_)));
    match c.state() {
        State::Cooldown { returning, .. } => assert_eq!(
            returning.as_ref(),
            Some(&keyboard()),
            "the keyboard still armed the return"
        ),
        other => panic!("expected Cooldown, got {other:?}"),
    }

    let action = c.handle(Event::TimerFired, finished + 5000);
    assert_eq!(
        action,
        Action::StartSwitch {
            target: 0,
            manual: false
        }
    );
    assert!(matches!(c.state(), State::Switching { target: 0, .. }));
}

#[test]
fn a_non_trigger_device_arriving_during_the_cooldown_does_not_switch_back() {
    let (mut c, now) = coordinator();
    let finished = into_cooldown(&mut c, now);

    let arrived = c.handle(
        Event::Trigger(TriggerEvent::DeviceArrived(mouse())),
        finished + 10,
    );
    assert!(matches!(arrived, Action::Ignore(_)));
    match c.state() {
        State::Cooldown { returning, .. } => assert!(returning.is_none()),
        other => panic!("expected Cooldown, got {other:?}"),
    }

    let action = c.handle(Event::TimerFired, finished + 5000);
    assert_eq!(action, Action::Ignore("cooldown finished"));
    assert!(matches!(c.state(), State::Idle));
}

#[test]
fn a_trigger_that_leaves_again_during_the_switch_clears_the_pending_return() {
    let (mut c, now) = coordinator();
    c.handle(Event::Trigger(TriggerEvent::DeviceLeft(keyboard())), now);
    c.handle(Event::TimerFired, now + 800);
    c.handle(
        Event::Trigger(TriggerEvent::DeviceArrived(keyboard())),
        now + 850,
    );
    c.handle(
        Event::Trigger(TriggerEvent::DeviceLeft(keyboard())),
        now + 900,
    );

    let finished = now + 1000;
    c.handle(Event::SwitchFinished, finished);
    match c.state() {
        State::Cooldown { returning, .. } => assert!(returning.is_none()),
        other => panic!("expected Cooldown, got {other:?}"),
    }

    let action = c.handle(Event::TimerFired, finished + 5000);
    assert_eq!(action, Action::Ignore("cooldown finished"));
    assert!(matches!(c.state(), State::Idle));
}

/// A switch that targets this Mac has nothing to come back from, so the
/// keyboard arriving afterwards must not schedule a second switch here.
#[test]
fn a_trigger_returning_after_a_switch_to_this_host_does_not_switch_again() {
    let (mut c, now) = coordinator();
    c.handle(
        Event::Trigger(TriggerEvent::Manual {
            target: 0,
            source: "tray",
        }),
        now,
    );
    let finished = now + 100;
    c.handle(Event::SwitchFinished, finished);

    let arrived = c.handle(
        Event::Trigger(TriggerEvent::DeviceArrived(keyboard())),
        finished + 10,
    );
    assert!(matches!(arrived, Action::Ignore(_)));
    match c.state() {
        State::Cooldown { returning, .. } => {
            assert!(
                returning.is_none(),
                "the switch never went away from this Mac"
            )
        }
        other => panic!("expected Cooldown, got {other:?}"),
    }

    let action = c.handle(Event::TimerFired, finished + 5000);
    assert_eq!(action, Action::Ignore("cooldown finished"));
    assert!(matches!(c.state(), State::Idle));
}

/// While a switch toward this Mac runs, the keyboard arriving records no
/// pending return: there is nothing to come back from.
#[test]
fn a_trigger_arriving_during_a_switch_to_this_host_records_no_return() {
    let (mut c, now) = coordinator();
    c.handle(
        Event::Trigger(TriggerEvent::Manual {
            target: 0,
            source: "tray",
        }),
        now,
    );
    let arrived = c.handle(
        Event::Trigger(TriggerEvent::DeviceArrived(keyboard())),
        now + 10,
    );
    assert_eq!(arrived, Action::Ignore("a switch is in progress"));
    assert_eq!(
        c.state(),
        &State::Switching {
            target: 0,
            returning: None
        }
    );
}

/// While a switch away from this Mac runs, the keyboard arriving records
/// itself as the pending return at once.
#[test]
fn a_trigger_arriving_during_a_switch_away_records_itself_at_once() {
    let (mut c, now) = coordinator();
    c.handle(
        Event::Trigger(TriggerEvent::Manual {
            target: 1,
            source: "tray",
        }),
        now,
    );
    c.handle(
        Event::Trigger(TriggerEvent::DeviceArrived(keyboard())),
        now + 10,
    );
    assert_eq!(
        c.state(),
        &State::Switching {
            target: 1,
            returning: Some(keyboard())
        }
    );
}

#[test]
fn a_stale_timer_keeps_the_pending_return_and_does_not_start_it() {
    let (mut c, now) = coordinator();
    let finished = into_cooldown(&mut c, now);
    c.handle(
        Event::Trigger(TriggerEvent::DeviceArrived(keyboard())),
        finished + 10,
    );

    let until = finished + 5000;
    let action = c.handle(Event::TimerFired, until - 1);
    assert_eq!(action, Action::Ignore("timer fired before cooldown end"));
    match c.state() {
        State::Cooldown { returning, .. } => {
            assert!(
                returning.is_some(),
                "the pending return survives a stale timer"
            )
        }
        other => panic!("expected Cooldown, got {other:?}"),
    }

    let action = c.handle(Event::TimerFired, until);
    assert_eq!(
        action,
        Action::StartSwitch {
            target: 0,
            manual: false
        }
    );
    assert!(matches!(c.state(), State::Switching { target: 0, .. }));
}

#[test]
fn a_non_trigger_device_arriving_during_the_switch_does_not_switch_back() {
    let (mut c, now) = coordinator();
    c.handle(Event::Trigger(TriggerEvent::DeviceLeft(keyboard())), now);
    c.handle(Event::TimerFired, now + 800);
    let arrived = c.handle(
        Event::Trigger(TriggerEvent::DeviceArrived(mouse())),
        now + 900,
    );
    assert!(matches!(arrived, Action::Ignore(_)));

    let finished = now + 1000;
    c.handle(Event::SwitchFinished, finished);
    match c.state() {
        State::Cooldown { returning, .. } => assert!(returning.is_none()),
        other => panic!("expected Cooldown, got {other:?}"),
    }

    let action = c.handle(Event::TimerFired, finished + 5000);
    assert_eq!(action, Action::Ignore("cooldown finished"));
    assert!(matches!(c.state(), State::Idle));
}

/// The return switch is a switch like any other: it cools down and stops
/// there, with no third switch in the chain.
#[test]
fn the_return_switch_settles_back_to_idle() {
    let (mut c, now) = coordinator();
    let finished = into_cooldown(&mut c, now);
    c.handle(
        Event::Trigger(TriggerEvent::DeviceArrived(keyboard())),
        finished + 10,
    );
    c.handle(Event::TimerFired, finished + 5000);

    let returned = finished + 5100;
    let action = c.handle(Event::SwitchFinished, returned);
    let until = returned + 5000;
    assert_eq!(action, Action::ArmTimer(until));
    match c.state() {
        State::Cooldown { returning, .. } => {
            assert!(returning.is_none(), "the return switch came home already")
        }
        other => panic!("expected Cooldown, got {other:?}"),
    }

    let action = c.handle(Event::TimerFired, until);
    assert_eq!(action, Action::Ignore("cooldown finished"));
    assert!(matches!(c.state(), State::Idle));
}

/// The keyboard arrives and its debounce runs out: the action the expiry
/// produced, which is where the pull decision is taken.
///
/// The arrival itself only arms the timer now — the screen question waits
/// for the end of the debounce — so every pull test goes through here.
fn arrival_verdict(c: &mut Coordinator, now: Millis) -> Action {
    let armed = c.handle(Event::Trigger(TriggerEvent::DeviceArrived(keyboard())), now);
    let deadline = now + 800;
    assert_eq!(
        armed,
        Action::ArmTimer(deadline),
        "an arrival arms the debounce whatever the verdict turns out to be"
    );
    c.handle(Event::TimerFired, deadline)
}

/// A coordinator that has not switched anything yet knows nothing about
/// where the screen is, so an arrival in `Idle` ends in a no-op (see
/// [`a_trigger_arriving_right_after_a_start_does_not_pull`]).
#[test]
fn a_trigger_arriving_while_idle_never_switches_back() {
    let (mut c, now) = coordinator();
    let action = arrival_verdict(&mut c, now);
    assert!(matches!(action, Action::Ignore(_)));
    assert!(matches!(c.state(), State::Idle));
}

/// The mirror of the leave rule: the keyboard came back to this
/// Mac by itself — the user pressed Easy-Switch, the other Mac either was
/// not running Relay or never saw the keyboard leave — so this Mac pulls
/// the screen and the following devices home.
#[test]
fn a_trigger_arriving_after_a_switch_away_pulls_everything_home() {
    let (mut c, now) = coordinator();
    let idle = into_idle_after_a_switch_away(&mut c, now);

    let arrived = idle + 10;
    let action = c.handle(
        Event::Trigger(TriggerEvent::DeviceArrived(keyboard())),
        arrived,
    );
    let deadline = arrived + 800;
    assert_eq!(action, Action::ArmTimer(deadline));
    match c.state() {
        State::Confirming {
            target,
            trigger,
            deadline: d,
            from_arrival,
        } => {
            assert_eq!(*target, 0, "the pull targets this Mac");
            assert_eq!(*trigger, keyboard());
            assert_eq!(*d, deadline);
            assert!(*from_arrival, "this debounce came from an arrival");
        }
        other => panic!("expected Confirming, got {other:?}"),
    }

    let action = c.handle(Event::TimerFired, deadline);
    assert_eq!(
        action,
        Action::StartSwitch {
            target: 0,
            manual: false
        }
    );
    assert!(matches!(c.state(), State::Switching { target: 0, .. }));
}

#[test]
fn a_trigger_arriving_does_not_pull_when_the_option_is_off() {
    let (mut c, now) = coordinator_without_pull_on_arrival();
    let idle = into_idle_after_a_switch_away(&mut c, now);

    let action = c.handle(
        Event::Trigger(TriggerEvent::DeviceArrived(keyboard())),
        idle + 10,
    );
    assert_eq!(action, Action::Ignore("pulling on arrival is off"));
    assert!(matches!(c.state(), State::Idle));
}

/// A Relay that just started has no idea where the screen is: pulling on a
/// guess would cost a needless switch and a cooldown that swallows the
/// user's next Easy-Switch press.
#[test]
fn a_trigger_arriving_right_after_a_start_does_not_pull() {
    let (mut c, now) = coordinator();
    let action = arrival_verdict(&mut c, now);
    assert_eq!(action, Action::Ignore("no switch to pull back from"));
    assert!(matches!(c.state(), State::Idle));
}

/// The last switch already targeted this Mac, so the screen is here.
#[test]
fn a_trigger_arriving_after_a_switch_to_this_host_does_not_pull() {
    let (mut c, now) = coordinator();
    c.handle(
        Event::Trigger(TriggerEvent::Manual {
            target: 0,
            source: "tray",
        }),
        now,
    );
    let finished = now + 100;
    c.handle(Event::SwitchFinished, finished);
    let idle = finished + 5000;
    c.handle(Event::TimerFired, idle);
    assert!(matches!(c.state(), State::Idle));

    let action = arrival_verdict(&mut c, idle + 10);
    assert_eq!(action, Action::Ignore("the screen is already here"));
    assert!(matches!(c.state(), State::Idle));
}

/// The debounce is symmetric in that the same device turning round
/// cancels the pull — but a keyboard that leaves again really has left.
/// The user pressed Easy-Switch within the 800 ms, so the screen and the
/// following devices must go after it instead of being stranded here.
#[test]
fn leaving_again_within_the_debounce_switches_away_instead_of_pulling() {
    let (mut c, now) = coordinator();
    let idle = into_idle_after_a_switch_away(&mut c, now);
    let arrived = idle + 10;
    c.handle(
        Event::Trigger(TriggerEvent::DeviceArrived(keyboard())),
        arrived,
    );

    let left = arrived + 100;
    let action = c.handle(Event::Trigger(TriggerEvent::DeviceLeft(keyboard())), left);
    let deadline = left + 800;
    assert_eq!(
        action,
        Action::ArmTimer(deadline),
        "the leave starts a debounce of its own"
    );
    match c.state() {
        State::Confirming {
            target,
            trigger,
            deadline: d,
            from_arrival,
        } => {
            assert_eq!(*target, 1, "the switch follows the keyboard away");
            assert_eq!(*trigger, keyboard());
            assert_eq!(*d, deadline);
            assert!(!*from_arrival, "the pull gave way to a leave");
        }
        other => panic!("expected Confirming, got {other:?}"),
    }

    let action = c.handle(Event::TimerFired, deadline);
    assert_eq!(
        action,
        Action::StartSwitch {
            target: 1,
            manual: false
        }
    );
}

/// The same leave with nowhere to go: there is no switch to start, so all
/// that is left is to drop the pull.
#[test]
fn leaving_again_with_no_leave_target_only_cancels_the_pull() {
    let (mut c, now) = coordinator_without_a_leave_target();
    c.handle(Event::Trigger(TriggerEvent::DeviceArrived(keyboard())), now);
    assert!(matches!(
        c.state(),
        State::Confirming {
            from_arrival: true,
            ..
        }
    ));

    let action = c.handle(
        Event::Trigger(TriggerEvent::DeviceLeft(keyboard())),
        now + 100,
    );
    assert_eq!(action, Action::CancelTimer);
    assert!(matches!(c.state(), State::Idle));
}

/// Only the device that armed the pull can end it: another trigger going
/// away leaves the debounce running as before.
#[test]
fn a_different_device_leaving_within_a_pull_debounce_changes_nothing() {
    let (mut c, now) = coordinator_with_a_second_trigger();
    c.handle(Event::Trigger(TriggerEvent::DeviceArrived(keyboard())), now);
    let deadline = now + 800;

    let action = c.handle(
        Event::Trigger(TriggerEvent::DeviceLeft(second_trigger())),
        now + 100,
    );
    assert_eq!(action, Action::Ignore("waiting out the debounce"));
    match c.state() {
        State::Confirming {
            target,
            trigger,
            deadline: d,
            from_arrival,
        } => {
            assert_eq!(*target, 0, "the pull still targets this Mac");
            assert_eq!(*trigger, keyboard());
            assert_eq!(*d, deadline, "the first deadline stands");
            assert!(*from_arrival, "this debounce still came from an arrival");
        }
        other => panic!("expected Confirming, got {other:?}"),
    }
}

#[test]
fn a_non_trigger_device_arriving_while_idle_does_not_pull() {
    let (mut c, now) = coordinator();
    let idle = into_idle_after_a_switch_away(&mut c, now);

    let action = c.handle(
        Event::Trigger(TriggerEvent::DeviceArrived(mouse())),
        idle + 10,
    );
    assert_eq!(action, Action::Ignore("not a trigger device"));
    assert!(matches!(c.state(), State::Idle));
}

/// Once the pull has run, the screen is here and the last target is this
/// Mac: a second arrival must not start another switch.
#[test]
fn a_second_arrival_after_a_pull_does_not_pull_again() {
    let (mut c, now) = coordinator();
    let idle = into_idle_after_a_switch_away(&mut c, now);
    let arrived = idle + 10;
    c.handle(
        Event::Trigger(TriggerEvent::DeviceArrived(keyboard())),
        arrived,
    );
    let deadline = arrived + 800;
    c.handle(Event::TimerFired, deadline);

    let finished = deadline + 100;
    c.handle(Event::SwitchFinished, finished);
    let back_to_idle = finished + 5000;
    c.handle(Event::TimerFired, back_to_idle);
    assert!(matches!(c.state(), State::Idle));

    let action = arrival_verdict(&mut c, back_to_idle + 10);
    assert_eq!(action, Action::Ignore("the screen is already here"));
    assert!(matches!(c.state(), State::Idle));
}

/// The other direction keeps its own cancel rule: a leave-direction
/// debounce is still cancelled by the device coming back, and a *leave*
/// during it (a repeated notification) does not cancel anything.
#[test]
fn leaving_again_within_a_leave_debounce_does_not_cancel_the_switch() {
    let (mut c, now) = coordinator();
    c.handle(Event::Trigger(TriggerEvent::DeviceLeft(keyboard())), now);
    let action = c.handle(
        Event::Trigger(TriggerEvent::DeviceLeft(keyboard())),
        now + 100,
    );
    assert_eq!(action, Action::Ignore("waiting out the debounce"));
    assert!(matches!(c.state(), State::Confirming { .. }));

    let action = c.handle(Event::TimerFired, now + 800);
    assert_eq!(
        action,
        Action::StartSwitch {
            target: 1,
            manual: false
        }
    );
}

/// And the arrival direction ignores a repeated arrival the same way.
#[test]
fn arriving_again_within_a_pull_debounce_does_not_cancel_it() {
    let (mut c, now) = coordinator();
    let idle = into_idle_after_a_switch_away(&mut c, now);
    let arrived = idle + 10;
    c.handle(
        Event::Trigger(TriggerEvent::DeviceArrived(keyboard())),
        arrived,
    );

    let action = c.handle(
        Event::Trigger(TriggerEvent::DeviceArrived(keyboard())),
        arrived + 100,
    );
    assert_eq!(action, Action::Ignore("waiting out the debounce"));
    assert!(matches!(c.state(), State::Confirming { .. }));
}

/// The pull rule lives in `Idle` only: P1 still owns the arrivals that
/// happen inside this machine's own switch window.
#[test]
fn a_pull_does_not_disturb_the_bounce_back_window() {
    let (mut c, now) = coordinator();
    let finished = into_cooldown(&mut c, now);
    let arrived = c.handle(
        Event::Trigger(TriggerEvent::DeviceArrived(keyboard())),
        finished + 10,
    );
    assert_eq!(arrived, Action::Ignore("cooling down after a switch"));

    // One return switch, not two: the cooldown end starts it, and the
    // arrival that armed it is long past by the time we are idle again.
    let until = finished + 5000;
    let action = c.handle(Event::TimerFired, until);
    assert_eq!(
        action,
        Action::StartSwitch {
            target: 0,
            manual: false
        }
    );
    let returned = until + 100;
    c.handle(Event::SwitchFinished, returned);
    let action = c.handle(Event::TimerFired, returned + 5000);
    assert_eq!(action, Action::Ignore("cooldown finished"));
    assert!(matches!(c.state(), State::Idle));
}

#[test]
fn a_stray_timer_in_idle_is_ignored() {
    let (mut c, now) = coordinator();
    let action = c.handle(Event::TimerFired, now);
    assert!(matches!(action, Action::Ignore(_)));
    assert!(matches!(c.state(), State::Idle));
}

/// The case that used to fail: a Relay that has just started knows nothing
/// about its own past, but the monitor does. It says the screen is on
/// another host, so the keyboard's arrival pulls it home even though
/// `last_target` is `None`.
#[test]
fn the_screen_being_elsewhere_pulls_it_home_without_any_past_switch() {
    let (mut c, now) = coordinator();

    let action = c.handle(Event::Trigger(TriggerEvent::DeviceArrived(keyboard())), now);
    let deadline = now + 800;
    assert_eq!(action, Action::ArmTimer(deadline));
    match c.state() {
        State::Confirming {
            target,
            from_arrival,
            ..
        } => {
            assert_eq!(*target, 0, "the pull targets this Mac");
            assert!(*from_arrival, "this debounce came from an arrival");
        }
        other => panic!("expected Confirming, got {other:?}"),
    }

    // The runtime asks the monitor as the debounce runs out, not back when
    // the keyboard turned up.
    c.observe_screen(Some(false));
    let action = c.handle(Event::TimerFired, deadline);
    assert_eq!(
        action,
        Action::StartSwitch {
            target: 0,
            manual: false
        }
    );
}

/// The other half of the same trade: the normal round trip. The other Mac
/// already sent the screen back, so the keyboard arriving here must not
/// buy a second switch and a five-second cooldown — even though this
/// machine's own last switch pointed away.
#[test]
fn the_screen_being_here_beats_a_last_target_that_points_away() {
    let (mut c, now) = coordinator();
    let idle = into_idle_after_a_switch_away(&mut c, now);

    let arrived = idle + 10;
    let action = c.handle(
        Event::Trigger(TriggerEvent::DeviceArrived(keyboard())),
        arrived,
    );
    let deadline = arrived + 800;
    assert_eq!(action, Action::ArmTimer(deadline));

    c.observe_screen(Some(true));
    let action = c.handle(Event::TimerFired, deadline);
    assert_eq!(action, Action::Ignore("the screen is already here"));
    assert!(matches!(c.state(), State::Idle));
}

/// A display that will not answer changes nothing: the P3 rule decides,
/// word for word. Both directions of it.
#[test]
fn an_unreadable_display_leaves_the_last_target_rule_in_charge() {
    let (mut c, now) = coordinator();
    c.handle(Event::Trigger(TriggerEvent::DeviceArrived(keyboard())), now);
    c.observe_screen(None);
    let action = c.handle(Event::TimerFired, now + 800);
    assert_eq!(action, Action::Ignore("no switch to pull back from"));
    assert!(matches!(c.state(), State::Idle));

    let (mut c, now) = coordinator();
    let idle = into_idle_after_a_switch_away(&mut c, now);
    let arrived = idle + 10;
    let action = c.handle(
        Event::Trigger(TriggerEvent::DeviceArrived(keyboard())),
        arrived,
    );
    let deadline = arrived + 800;
    assert_eq!(action, Action::ArmTimer(deadline));

    c.observe_screen(None);
    let action = c.handle(Event::TimerFired, deadline);
    assert_eq!(
        action,
        Action::StartSwitch {
            target: 0,
            manual: false
        },
        "the last switch pointed away, so the fallback still pulls"
    );
}

/// The option still comes first: with the pull turned off, what the
/// monitor says is beside the point.
#[test]
fn an_observation_does_not_revive_the_pull_when_the_option_is_off() {
    let (mut c, now) = coordinator_without_pull_on_arrival();
    c.observe_screen(Some(false));
    let action = c.handle(Event::Trigger(TriggerEvent::DeviceArrived(keyboard())), now);
    assert_eq!(action, Action::Ignore("pulling on arrival is off"));
    assert!(matches!(c.state(), State::Idle));
}

/// One observation answers one pull. The runtime reads the monitor just
/// before the debounce expires, so the answer that decided one pull must
/// not still be lying around to decide the next.
#[test]
fn an_observation_is_used_once_and_then_forgotten() {
    let (mut c, now) = coordinator();
    c.handle(Event::Trigger(TriggerEvent::DeviceArrived(keyboard())), now);
    c.observe_screen(Some(false));
    let deadline = now + 800;
    assert_eq!(
        c.handle(Event::TimerFired, deadline),
        Action::StartSwitch {
            target: 0,
            manual: false
        }
    );

    // That pull runs and cools down; the screen is here now.
    let finished = deadline + 100;
    c.handle(Event::SwitchFinished, finished);
    let idle = finished + 5000;
    c.handle(Event::TimerFired, idle);
    assert!(matches!(c.state(), State::Idle));

    // A second arrival with no fresh reading falls back to `last_target`,
    // which points here. A stale `Some(false)` would pull all over again.
    let action = arrival_verdict(&mut c, idle + 10);
    assert_eq!(action, Action::Ignore("the screen is already here"));
    assert!(matches!(c.state(), State::Idle));
}

/// The observation only ever reaches the `Idle` pull. P1's bounce-back —
/// an arrival during this machine's own switch or cooldown — keeps its own
/// rule, whatever the monitor happens to be showing at the time.
#[test]
fn an_observation_does_not_disturb_the_bounce_back_window() {
    let (mut c, now) = coordinator();
    c.handle(Event::Trigger(TriggerEvent::DeviceLeft(keyboard())), now);
    let fired = now + 800;
    c.handle(Event::TimerFired, fired);

    // Mid-switch the screen is (still) on the other Mac; the arrival is
    // ignored all the same, and arms the return.
    c.observe_screen(Some(true));
    let action = c.handle(
        Event::Trigger(TriggerEvent::DeviceArrived(keyboard())),
        fired + 10,
    );
    assert_eq!(action, Action::Ignore("a switch is in progress"));

    c.handle(Event::SwitchFinished, fired + 20);
    c.observe_screen(Some(true));
    let arrived = fired + 30;
    let action = c.handle(
        Event::Trigger(TriggerEvent::DeviceArrived(keyboard())),
        arrived,
    );
    assert_eq!(action, Action::Ignore("cooling down after a switch"));

    // The return still runs when the cooldown ends.
    let until = fired + 5020;
    assert_eq!(
        c.handle(Event::TimerFired, until),
        Action::StartSwitch {
            target: 0,
            manual: false
        }
    );
}

