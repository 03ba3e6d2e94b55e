//! What the core publishes and the decisions its loop makes.

use relay_core::config::{
    Config, DeviceConfig, DisplayConfig, Host, Language, Options, Timing, LANG_EN, LANG_ZH_HANS,
    SCHEMA_VERSION,
};
use relay_core::coordinator::{Coordinator, Event, State};
use relay_core::runtime::{
    is_idle, matcher_vendors, pull_needs_the_screen, screen_here, state_name, wanted_input, CoreError,
    Engine, Status,
};
use relay_core::types::{DeviceId, DeviceRole, TriggerEvent};

fn config() -> Config {
    Config {
        schema_version: SCHEMA_VERSION,
        this_host: 0,
        hosts: vec![
            Host {
                index: 0,
                name: "Bam.Work".to_string(),
            },
            Host {
                index: 1,
                name: "Bam.Mini".to_string(),
            },
        ],
        displays: vec![DisplayConfig {
            edid_uuid: "B9B87925-0000-0000-0000-000000000000".to_string(),
            name: "AOC U2790R3B".to_string(),
            input_by_host: vec![(0, 17), (1, 18)],
        }],
        devices: vec![
            DeviceConfig {
                id: DeviceId("046d:b366".to_string()),
                name: "MX Mechanical".to_string(),
                role: DeviceRole::Keyboard,
                transport: "ble".to_string(),
                serial: None,
                is_trigger: true,
                follow: false,
                leave_to: None,
            },
            DeviceConfig {
                id: DeviceId("046d:b023".to_string()),
                name: "MX Master 3".to_string(),
                role: DeviceRole::Mouse,
                transport: "ble".to_string(),
                serial: None,
                is_trigger: false,
                follow: true,
                leave_to: None,
            },
        ],
        timing: Timing {
            debounce_ms: 800,
            cooldown_ms: 5000,
            ddc_retries: 3,
        },
        hotkeys: Vec::new(),
        options: Options {
            switch_back_on_reconnect: true,
            pull_on_arrival: true,
            launch_at_login: true,
            language: Language::Auto,
        },
    }
}

#[test]
fn the_status_says_what_the_core_is_doing() {
    let cfg = config();
    let mut c = Coordinator::new(cfg.clone());
    let status = Status::of(Some(&c), Some(&cfg), None, true, None, Some("en-GB"));
    assert_eq!(status.state, "Idle");
    assert!(status.config_ok);
    assert_eq!(status.this_host, Some(0));
    assert_eq!(
        status.hosts,
        vec![(0, "Bam.Work".to_string()), (1, "Bam.Mini".to_string())]
    );
    assert_eq!(status.language, LANG_EN);

    c.handle(
        Event::Trigger(TriggerEvent::DeviceLeft(DeviceId("046d:b366".to_string()))),
        1_000,
    );
    let status = Status::of(Some(&c), Some(&cfg), None, true, None, None);
    assert_eq!(status.state, "Confirming");
    assert_eq!(status.language, LANG_ZH_HANS);
}

#[test]
fn a_config_whose_reload_failed_is_not_usable() {
    let cfg = config();
    let c = Coordinator::new(cfg.clone());
    let status = Status::of(
        Some(&c),
        Some(&cfg),
        Some("the file is not JSON".to_string()),
        true,
        None,
        None,
    );
    assert!(!status.config_ok);
    assert_eq!(status.config_error.as_deref(), Some("the file is not JSON"));
}

#[test]
fn before_any_config_the_core_is_unconfigured() {
    let status = Status::unconfigured(Some("zh-Hant-TW"));
    assert_eq!(status.state, "Unconfigured");
    assert!(!status.config_ok);
    assert!(status.hosts.is_empty());
    assert_eq!(status.language, LANG_ZH_HANS);
    assert_eq!(state_name(None), "Unconfigured");
    assert_eq!(Status::of(None, None, None, false, None, None).state, "Unconfigured");
}

#[test]
fn the_core_is_idle_only_with_nothing_running() {
    assert!(is_idle(false, None));
    assert!(is_idle(false, Some(&State::Idle)));
    assert!(!is_idle(true, Some(&State::Idle)));
    assert!(!is_idle(
        false,
        Some(&State::Switching {
            target: 1,
            returning: None
        })
    ));
}

#[test]
fn only_an_arrival_debounce_asks_the_screen() {
    let mut cfg = config();
    let arriving = State::Confirming {
        target: 0,
        trigger: DeviceId("046d:b366".to_string()),
        deadline: 1_800,
        from_arrival: true,
    };
    let leaving = State::Confirming {
        target: 1,
        trigger: DeviceId("046d:b366".to_string()),
        deadline: 1_800,
        from_arrival: false,
    };
    assert!(pull_needs_the_screen(Some(&cfg), Some(&arriving)));
    assert!(!pull_needs_the_screen(Some(&cfg), Some(&leaving)));
    assert!(!pull_needs_the_screen(None, Some(&arriving)));
    cfg.options.pull_on_arrival = false;
    assert!(!pull_needs_the_screen(Some(&cfg), Some(&arriving)));
}

#[test]
fn the_watcher_matches_each_configured_vendor_once() {
    let mut cfg = config();
    assert_eq!(matcher_vendors(&cfg), vec![0x046d]);
    cfg.devices[1].id = DeviceId("05ac:0001".to_string());
    cfg.devices.push(DeviceConfig {
        id: DeviceId("not-a-vid-pid".to_string()),
        ..cfg.devices[0].clone()
    });
    assert_eq!(matcher_vendors(&cfg), vec![0x046d, 0x05ac]);
}

#[test]
fn a_new_config_waits_for_the_running_switch_and_its_cooldown() {
    let mut engine = Engine::new();
    engine.loaded(config());
    assert!(engine.is_idle());
    let plan = engine.manual_switch(1, "tray", 1_000).expect("the switch starts");
    assert_eq!(plan.target, 1);
    assert!(plan.manual);
    engine.switch_started();

    let mut newer = config();
    newer.timing.cooldown_ms = 9_000;
    engine.loaded(newer);
    assert_eq!(engine.config().expect("a config").timing.cooldown_ms, 5_000);
    assert!(!engine.install_pending(), "a switch is running");

    engine.switch_finished();
    engine.handle(Event::SwitchFinished, 2_000);
    assert!(!engine.install_pending(), "the cooldown is running");
    engine.handle(Event::TimerFired, 7_000);
    assert!(engine.install_pending());
    assert_eq!(engine.config().expect("a config").timing.cooldown_ms, 9_000);
    assert!(matches!(
        engine.coordinator().expect("a coordinator").state(),
        State::Idle
    ));
}

#[test]
fn a_failed_reload_takes_the_config_away_once_the_core_is_idle() {
    let mut engine = Engine::new();
    engine.loaded(config());
    engine.manual_switch(1, "tray", 1_000).expect("the switch starts");
    engine.switch_started();
    assert!(!engine.failed("the file is not JSON".to_string()));
    assert!(engine.config().is_some(), "kept for the running switch");
    assert_eq!(
        engine.config_error().map(String::as_str),
        Some("the file is not JSON")
    );
    engine.switch_finished();
    engine.handle(Event::SwitchFinished, 2_000);
    engine.handle(Event::TimerFired, 7_000);
    assert!(engine.install_pending());
    assert!(engine.config().is_none());

    // A later good config clears the error and is installed at once.
    engine.loaded(config());
    assert!(engine.config().is_some());
    assert!(engine.config_error().is_none());
}

#[test]
fn a_manual_switch_needs_a_config_a_plannable_target_and_a_free_core() {
    let mut engine = Engine::new();
    assert!(matches!(
        engine.manual_switch(1, "cli", 1_000),
        Err(CoreError::Unconfigured)
    ));
    engine.loaded(config());
    assert!(matches!(
        engine.manual_switch(7, "cli", 1_000),
        Err(CoreError::Plan(_))
    ));
    engine.manual_switch(1, "cli", 1_000).expect("the switch starts");
    assert!(matches!(
        engine.manual_switch(0, "cli", 1_001),
        Err(CoreError::Busy)
    ));
}

#[test]
fn the_screen_is_judged_by_the_first_display() {
    let cfg = config();
    assert_eq!(wanted_input(&cfg), Some(17));
    assert_eq!(screen_here(Some(17), 17), Some(true));
    assert_eq!(screen_here(Some(18), 17), Some(false));
    assert_eq!(screen_here(None, 17), None);
    let mut bare = cfg.clone();
    bare.displays.clear();
    assert_eq!(wanted_input(&bare), None);
}
