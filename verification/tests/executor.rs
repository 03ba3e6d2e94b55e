//! What each step of a switch concludes from what the hardware said.

use relay_core::device::DeviceError;
use relay_core::display::DisplayError;
use std::collections::VecDeque;

use relay_core::executor::{
    ddc_attempts, ddc_backoff_ms, device_step, device_what, display_outcome, display_what,
    finish, switch_outcome, Call, DeviceStep, PlanRun, StepResult, SwitchReport,
};
use relay_core::plan::SwitchPlan;
use relay_core::runtime::failed_report;
use relay_core::types::{DeviceId, HostIndex, HostInfo};

fn done(step: DeviceStep) -> Result<String, String> {
    match step {
        DeviceStep::Done(outcome) => outcome,
        DeviceStep::Switch => panic!("expected the step to end without a switch"),
    }
}

#[test]
fn a_device_step_at_the_target_is_done_without_a_switch() {
    let step = device_step(1, false, &Ok(HostInfo { count: 3, current: 1 }));
    assert_eq!(done(step), Ok("already at target".to_string()));
}

#[test]
fn a_device_step_past_the_last_slot_fails() {
    let step = device_step(2, false, &Ok(HostInfo { count: 2, current: 0 }));
    let detail = done(step).expect_err("an out-of-range target fails the step");
    assert!(detail.contains("beyond"), "detail was {detail:?}");
    assert_eq!(detail, "target 2 is beyond the device's 2 hosts");
}

#[test]
fn a_device_on_another_slot_is_switched() {
    assert!(matches!(
        device_step(1, false, &Ok(HostInfo { count: 3, current: 0 })),
        DeviceStep::Switch
    ));
    assert_eq!(
        switch_outcome(1, &Ok(())),
        Ok("switched to host 1".to_string())
    );
    assert_eq!(
        switch_outcome(1, &Err(DeviceError::Timeout)),
        Err("device did not answer in time".to_string())
    );
}

#[test]
fn a_device_step_without_the_device_fails_a_manual_switch() {
    assert_eq!(
        done(device_step(1, true, &Err(DeviceError::NotFound))),
        Err("device not present".to_string())
    );
}

#[test]
fn a_device_step_without_the_device_skips_on_an_automatic_switch() {
    assert_eq!(
        done(device_step(1, false, &Err(DeviceError::NotFound))),
        Ok("not on this Mac, skipped".to_string())
    );
}

#[test]
fn a_failed_host_read_never_sends_a_switch_blind() {
    assert_eq!(
        done(device_step(1, false, &Err(DeviceError::Tool("wedged".to_string())))),
        Err("wedged".to_string())
    );
}

#[test]
fn the_retry_budget_is_the_retries_plus_one() {
    assert_eq!(ddc_attempts(3), 4);
    assert_eq!(ddc_attempts(u32::MAX), u32::MAX);
    // Backoffs of 0.5 s, 1 s and 2 s between the four attempts: 3.5 s in all.
    let waited: u64 = (1..ddc_attempts(3)).map(ddc_backoff_ms).sum();
    assert_eq!(waited, 3500);
    assert_eq!(ddc_backoff_ms(7), 2000, "later attempts reuse the last pause");
}

#[test]
fn what_a_display_step_reports() {
    assert_eq!(display_outcome(18, None), Err("display not found".to_string()));
    assert_eq!(display_outcome(18, Some(Ok(()))), Ok("input 18".to_string()));
    assert_eq!(
        display_outcome(18, Some(Err(DisplayError::Timeout))),
        Err("display did not answer in time".to_string())
    );
    assert_eq!(
        display_outcome(18, Some(Err(DisplayError::Tool("no response from display".to_string())))),
        Err("no response from display".to_string())
    );
}

#[test]
fn a_report_is_ok_only_when_every_step_is() {
    let good = finish(display_what("AOC U2790R3B"), 12, Ok("input 18".to_string()));
    let bad = finish(device_what("MX Master 3"), 30, Err("device not present".to_string()));
    assert_eq!(good.what, "display AOC U2790R3B");
    assert!(good.ok);
    assert_eq!(bad.what, "device MX Master 3");
    assert!(!bad.ok);
    assert_eq!(bad.detail, "device not present");
    assert_eq!(bad.ms, 30);

    let all_good = SwitchReport::from_steps(1, vec![good.clone()]);
    assert!(all_good.ok);
    let mixed = SwitchReport::from_steps(1, vec![good, bad]);
    assert!(!mixed.ok);
    assert_eq!(mixed.steps.len(), 2);
    assert!(SwitchReport::from_steps(1, Vec::<StepResult>::new()).ok);
}

#[test]
fn a_switch_that_could_not_run_reports_one_failed_step() {
    let report = failed_report(2, "no usable config".to_string());
    assert_eq!(report.target, 2);
    assert!(!report.ok);
    assert_eq!(report.steps.len(), 1);
    assert_eq!(report.steps[0].what, "plan for host 2");
    assert_eq!(report.steps[0].detail, "no usable config");
    assert_eq!(report.steps[0].ms, 0);
}

// ---------------------------------------------------------------------------
// Whole runs, against scripted hardware.
// ---------------------------------------------------------------------------

/// More failures than any test lets the run attempt.
const ALWAYS: usize = 10;

/// A display whose writes fail as scripted, then succeed.
struct FakeDisplay {
    name: String,
    results: VecDeque<Result<(), DisplayError>>,
}

impl FakeDisplay {
    fn working(name: &str) -> Self {
        Self::failing(name, 0)
    }

    fn failing(name: &str, failures: usize) -> Self {
        FakeDisplay {
            name: name.to_string(),
            results: (0..failures)
                .map(|_| Err(DisplayError::Tool("no response from display".to_string())))
                .collect(),
        }
    }
}

/// A device whose host slot reads and switches answer as scripted.
struct FakeDevice {
    name: String,
    host_info: VecDeque<Result<HostInfo, DeviceError>>,
    switches: VecDeque<Result<(), DeviceError>>,
}

impl FakeDevice {
    fn with_host_info(name: &str, host_info: Result<HostInfo, DeviceError>) -> Self {
        FakeDevice {
            name: name.to_string(),
            host_info: VecDeque::from([host_info]),
            switches: VecDeque::new(),
        }
    }

    fn at_host(name: &str, current: u8) -> Self {
        Self::with_host_info(name, Ok(HostInfo { count: 3, current }))
    }
}

/// What a run did: its report, the calls it made in order, and how long it
/// paused in all.
struct Ran {
    report: SwitchReport,
    calls: Vec<String>,
    paused_ms: u64,
}

/// Drives `plan` to the end the way the platform layer does, answering each
/// call from the scripted hardware.
fn run_plan(plan: &SwitchPlan, mut displays: Vec<FakeDisplay>, mut devices: Vec<FakeDevice>, retries: u32) -> Ran {
    let names = displays.iter().map(|d| d.name.clone()).collect();
    let keys = devices
        .iter()
        .map(|d| (DeviceId(d.name.clone()), d.name.clone()))
        .collect();
    let mut run = PlanRun::new(plan.clone(), names, keys, retries);
    let mut calls = Vec::new();
    let mut clock: u64 = 0;
    let mut call = run.start(clock);
    loop {
        call = match call {
            Call::SetInput { display, code, pause_ms } => {
                clock += pause_ms;
                let display = &mut displays[display];
                calls.push(format!("display {} set_input {code}", display.name));
                let result = display.results.pop_front().unwrap_or(Ok(()));
                run.display_answered(result, clock)
            }
            Call::ReadHosts { device } => {
                let device = &mut devices[device];
                calls.push(format!("device {} host_info", device.name));
                let info = device
                    .host_info
                    .pop_front()
                    .unwrap_or(Ok(HostInfo { count: 3, current: 0 }));
                run.hosts_read(info, clock)
            }
            Call::SwitchHost { device, target } => {
                let device = &mut devices[device];
                calls.push(format!("device {} switch_to_host {target}", device.name));
                let result = device.switches.pop_front().unwrap_or(Ok(()));
                run.switched(result, clock)
            }
            Call::Finished => break,
        };
    }
    // Every entry of the plan ends as exactly one step.
    assert_eq!(run.recorded().len(), plan.displays.len() + plan.devices.len());
    Ran {
        report: run.report(),
        calls,
        paused_ms: clock,
    }
}

/// An automatic plan, as a leaving trigger device produces.
fn plan() -> SwitchPlan {
    SwitchPlan {
        target: 1,
        displays: vec![("AOC U2790R3B".to_string(), 18)],
        devices: vec![DeviceId("MX Master 3".to_string())],
        manual: false,
    }
}

fn with_target(target: HostIndex) -> SwitchPlan {
    SwitchPlan { target, ..plan() }
}

#[test]
fn displays_run_before_devices() {
    let ran = run_plan(
        &plan(),
        vec![FakeDisplay::working("AOC U2790R3B")],
        vec![FakeDevice::at_host("MX Master 3", 0)],
        3,
    );

    assert!(ran.report.ok, "{:?}", ran.report);
    assert_eq!(
        ran.calls,
        vec![
            "display AOC U2790R3B set_input 18",
            "device MX Master 3 host_info",
            "device MX Master 3 switch_to_host 1",
        ]
    );
}

#[test]
fn a_device_already_at_the_target_is_skipped() {
    let ran = run_plan(
        &plan(),
        vec![FakeDisplay::working("AOC U2790R3B")],
        vec![FakeDevice::at_host("MX Master 3", 1)],
        3,
    );

    assert!(ran.report.ok, "{:?}", ran.report);
    assert_eq!(
        ran.calls,
        vec!["display AOC U2790R3B set_input 18", "device MX Master 3 host_info"]
    );
    assert_eq!(ran.report.steps[1].detail, "already at target");
}

#[test]
fn a_target_beyond_the_devices_host_count_is_never_sent() {
    // Two slots means the valid targets are 0 and 1; slot 2 is past the end
    // of this device's slots and may well be unpaired.
    let ran = run_plan(
        &with_target(2),
        vec![FakeDisplay::working("AOC U2790R3B")],
        vec![FakeDevice::with_host_info("MX Master 3", Ok(HostInfo { count: 2, current: 0 }))],
        3,
    );

    assert!(!ran.report.ok, "an out-of-range target fails the run");
    assert!(!ran.report.steps[1].ok);
    assert!(
        ran.report.steps[1].detail.contains("beyond"),
        "detail was {:?}",
        ran.report.steps[1].detail
    );
    assert_eq!(
        ran.calls,
        vec!["display AOC U2790R3B set_input 18", "device MX Master 3 host_info"],
        "switch_to_host must never be called"
    );
}

#[test]
fn a_failing_display_does_not_stop_the_devices() {
    let ran = run_plan(
        &plan(),
        vec![FakeDisplay::failing("AOC U2790R3B", ALWAYS)],
        vec![FakeDevice::at_host("MX Master 3", 0)],
        1,
    );

    assert!(!ran.report.ok, "a failed display makes the report not ok");
    assert!(!ran.report.steps[0].ok);
    assert!(ran.report.steps[1].ok, "the device still switched");
    assert_eq!(
        ran.calls.last().map(String::as_str),
        Some("device MX Master 3 switch_to_host 1")
    );
}

#[test]
fn set_input_is_attempted_ddc_retries_plus_one_times() {
    let plan = SwitchPlan { devices: vec![], ..plan() };
    let ran = run_plan(&plan, vec![FakeDisplay::failing("AOC U2790R3B", ALWAYS)], vec![], 3);

    assert_eq!(ran.calls.len(), 4, "one initial attempt plus three retries: {:?}", ran.calls);
    assert!(!ran.report.steps[0].ok);
    assert_eq!(
        ran.paused_ms, 3500,
        "backoffs of 0.5s, 1s and 2s waited between the four attempts"
    );
    assert_eq!(ran.report.steps[0].ms, 3500, "the step spans every attempt");
}

#[test]
fn set_input_stops_retrying_once_it_succeeds() {
    let plan = SwitchPlan { devices: vec![], ..plan() };
    let ran = run_plan(&plan, vec![FakeDisplay::failing("AOC U2790R3B", 1)], vec![], 3);

    assert_eq!(ran.calls.len(), 2, "{:?}", ran.calls);
    assert!(ran.report.ok, "{:?}", ran.report);
}

#[test]
fn a_display_the_core_does_not_know_is_a_failed_step() {
    let ran = run_plan(&plan(), vec![], vec![FakeDevice::at_host("MX Master 3", 0)], 3);

    assert!(!ran.report.ok);
    assert_eq!(ran.report.steps[0].detail, "display not found");
    assert!(ran.report.steps[1].ok, "the device still switched");
}

#[test]
fn a_device_that_left_the_machine_fails_a_manual_switch_and_the_next_one_still_switches() {
    let plan = SwitchPlan {
        devices: vec![
            DeviceId("MX Master 3".to_string()),
            DeviceId("MX Mechanical".to_string()),
        ],
        manual: true,
        ..plan()
    };
    let ran = run_plan(
        &plan,
        vec![FakeDisplay::working("AOC U2790R3B")],
        vec![
            FakeDevice::with_host_info("MX Master 3", Err(DeviceError::NotFound)),
            FakeDevice::at_host("MX Mechanical", 0),
        ],
        3,
    );

    assert!(!ran.report.ok);
    assert!(!ran.report.steps[1].ok, "the missing device failed");
    assert_eq!(ran.report.steps[1].detail, "device not present");
    assert!(ran.report.steps[2].ok, "the next device still switched");
    assert_eq!(
        ran.calls.last().map(String::as_str),
        Some("device MX Mechanical switch_to_host 1")
    );
}

#[test]
fn an_automatic_switch_skips_a_device_the_other_host_already_took() {
    let plan = SwitchPlan {
        devices: vec![
            DeviceId("MX Master 3".to_string()),
            DeviceId("MX Mechanical".to_string()),
        ],
        ..plan()
    };
    let ran = run_plan(
        &plan,
        vec![FakeDisplay::working("AOC U2790R3B")],
        vec![
            FakeDevice::with_host_info("MX Master 3", Err(DeviceError::NotFound)),
            FakeDevice::at_host("MX Mechanical", 0),
        ],
        3,
    );

    assert!(ran.report.ok, "a device already moved away is not a failure");
    assert!(ran.report.steps[1].ok, "{:?}", ran.report.steps[1]);
    assert!(
        ran.report.steps[1].detail.contains("skipped"),
        "detail was {:?}",
        ran.report.steps[1].detail
    );
    assert!(ran.report.steps[2].ok, "the next device still switched");
    assert_eq!(
        ran.calls.last().map(String::as_str),
        Some("device MX Mechanical switch_to_host 1"),
        "the skipped device is never sent a host change"
    );
}

#[test]
fn a_device_the_core_does_not_know_is_a_failed_step_and_the_rest_still_run() {
    let plan = SwitchPlan {
        devices: vec![
            DeviceId("MX Keys".to_string()),
            DeviceId("MX Master 3".to_string()),
        ],
        ..plan()
    };
    let ran = run_plan(
        &plan,
        vec![FakeDisplay::working("AOC U2790R3B")],
        vec![FakeDevice::at_host("MX Master 3", 0)],
        3,
    );

    assert!(!ran.report.ok);
    assert_eq!(ran.report.steps.len(), 3, "one step per entry of the plan");
    assert_eq!(ran.report.steps[1].what, "device MX Keys");
    assert_eq!(ran.report.steps[1].detail, "device not found");
    assert_eq!(ran.report.steps[2].detail, "switched to host 1");
}
