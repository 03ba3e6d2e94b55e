//! What holds whatever the inputs: checked here on concrete runs.

use relay_core::config::{
    Config, DeviceConfig, DisplayConfig, Host, Language, Options, Timing, SCHEMA_VERSION,
};
use relay_core::coordinator::{Action, Coordinator, Event, State};
use relay_core::trigger::{PresenceTracker, RawHidEvent};
use relay_core::types::{DeviceId, DeviceRole, TriggerEvent};

fn config() -> Config {
    Config {
        schema_version: SCHEMA_VERSION,
        this_host: 0,
        hosts: vec![
            Host {
                index: 0,
                name: "Bam.Work".to_string(),
            },
            Host {
                index: 1,
                name: "Bam.Mini".to_string(),
            },
        ],
        displays: vec![DisplayConfig {
            edid_uuid: "B9B87925-0000-0000-0000-000000000000".to_string(),
            name: "AOC U2790R3B".to_string(),
            input_by_host: vec![(0, 17), (1, 18)],
        }],
        devices: vec![
            DeviceConfig {
                id: DeviceId("046d:b366".to_string()),
                name: "MX Mechanical".to_string(),
                role: DeviceRole::Keyboard,
                transport: "ble".to_string(),
                serial: None,
                is_trigger: true,
                follow: false,
                leave_to: None,
            },
            DeviceConfig {
                id: DeviceId("046d:b023".to_string()),
                name: "MX Master 3".to_string(),
                role: DeviceRole::Mouse,
                transport: "ble".to_string(),
                serial: None,
                is_trigger: false,
                follow: true,
                leave_to: None,
            },
        ],
        timing: Timing {
            debounce_ms: 800,
            cooldown_ms: 5000,
            ddc_retries: 3,
        },
        hotkeys: Vec::new(),
        options: Options {
            switch_back_on_reconnect: true,
            pull_on_arrival: true,
            launch_at_login: true,
            language: Language::Auto,
        },
    }
}

fn keyboard() -> DeviceId {
    DeviceId("046d:b366".to_string())
}

/// Every kind of event the coordinator can be handed.
fn every_event() -> Vec<Event> {
    vec![
        Event::Trigger(TriggerEvent::DeviceLeft(keyboard())),
        Event::Trigger(TriggerEvent::DeviceArrived(keyboard())),
        Event::Trigger(TriggerEvent::Manual {
            target: 1,
            source: "tray",
        }),
        Event::TimerFired,
        Event::SwitchFinished,
    ]
}

#[test]
fn nothing_cuts_the_cooldown_short() {
    for event in every_event() {
        let mut c = Coordinator::new(config());
        c.handle(Event::Trigger(TriggerEvent::DeviceLeft(keyboard())), 1_000);
        c.handle(Event::TimerFired, 1_800);
        c.handle(Event::SwitchFinished, 2_000);
        let action = c.handle(event.clone(), 6_999);
        assert!(matches!(action, Action::Ignore(_)), "{event:?} gave {action:?}");
        assert!(
            matches!(c.state(), State::Cooldown { until: 7_000, .. }),
            "{event:?} left {:?}",
            c.state()
        );
    }
}

#[test]
fn nothing_starts_a_second_switch_while_one_runs() {
    for event in every_event() {
        let mut c = Coordinator::new(config());
        c.handle(
            Event::Trigger(TriggerEvent::Manual {
                target: 1,
                source: "tray",
            }),
            1_000,
        );
        let action = c.handle(event.clone(), 1_001);
        assert!(
            !matches!(action, Action::StartSwitch { .. }),
            "{event:?} started a switch"
        );
    }
}

#[test]
fn a_node_that_comes_and_goes_leaves_the_tracker_as_it_was() {
    let mut tracker = PresenceTracker::new(vec![keyboard()]);
    let added = |node| RawHidEvent::Added {
        node,
        vid: 0x046d,
        pid: 0xb366,
        product: "MX Mechanical".to_string(),
    };
    assert_eq!(
        tracker.feed(added(1)),
        Some(TriggerEvent::DeviceArrived(keyboard()))
    );
    assert_eq!(tracker.feed(added(2)), None);
    assert_eq!(tracker.feed(RawHidEvent::Removed { node: 2 }), None);
    // Back where it was: one node, so the next removal is the departure.
    assert_eq!(
        tracker.feed(RawHidEvent::Removed { node: 1 }),
        Some(TriggerEvent::DeviceLeft(keyboard()))
    );
    assert_eq!(
        tracker.feed(added(3)),
        Some(TriggerEvent::DeviceArrived(keyboard()))
    );
}

#[test]
fn an_arrival_only_ever_brings_the_screen_here() {
    // The screen is elsewhere: the arrival pulls it, and only towards this
    // machine.
    let mut c = Coordinator::new(config());
    c.handle(Event::Trigger(TriggerEvent::DeviceArrived(keyboard())), 1_000);
    c.observe_screen(Some(false));
    assert_eq!(
        c.handle(Event::TimerFired, 1_800),
        Action::StartSwitch {
            target: 0,
            manual: false
        }
    );

    // A push to another host only ever follows the leave debounce.
    let mut c = Coordinator::new(config());
    c.handle(Event::Trigger(TriggerEvent::DeviceLeft(keyboard())), 1_000);
    assert!(matches!(
        c.state(),
        State::Confirming {
            from_arrival: false,
            ..
        }
    ));
    assert_eq!(
        c.handle(Event::TimerFired, 1_800),
        Action::StartSwitch {
            target: 1,
            manual: false
        }
    );
}

#[test]
fn leaving_during_the_arrival_debounce_is_a_fresh_leave() {
    let mut from_idle = Coordinator::new(config());
    let leave_from_idle =
        from_idle.handle(Event::Trigger(TriggerEvent::DeviceLeft(keyboard())), 1_300);

    let mut c = Coordinator::new(config());
    c.handle(Event::Trigger(TriggerEvent::DeviceArrived(keyboard())), 1_000);
    let leave = c.handle(Event::Trigger(TriggerEvent::DeviceLeft(keyboard())), 1_300);

    assert_eq!(leave, Action::ArmTimer(2_100));
    assert_eq!(leave, leave_from_idle);
    assert_eq!(c.state(), from_idle.state());
}
