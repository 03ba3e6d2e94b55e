//! Which HID nodes a configured device is reached through, and what a failed
//! host change means.

use relay_core::device::logitech::{
    classify_switch_error, identity, link_gone_after_send, open_budget_ms, probe_budget_ms,
    select_candidates, HidNode, LinkFailure, PROBE_TIMEOUT_MS,
};
use relay_core::device::DeviceError;
use relay_core::types::DeviceId;

/// One enumerated node, named for the test.
fn node(vid: u16, pid: u16, id: &'static str, serial: Option<&str>) -> (HidNode, &'static str) {
    (
        HidNode {
            vendor_id: vid,
            product_id: pid,
            serial_number: serial.map(str::to_string),
        },
        id,
    )
}

/// The names of the nodes `select_candidates` picks out of `nodes`.
fn picked(nodes: &[(HidNode, &'static str)], id: &str, serial: Option<&str>) -> Vec<&'static str> {
    let hid: Vec<HidNode> = nodes.iter().map(|(n, _)| n.clone()).collect();
    select_candidates(&hid, &DeviceId(id.to_string()), serial)
        .into_iter()
        .map(|i| nodes[i].1)
        .collect()
}

#[test]
fn only_nodes_with_the_configured_vid_and_pid_are_candidates() {
    let nodes = vec![
        node(0x046d, 0xb023, "a", None),
        node(0x046d, 0xb366, "b", None),
        node(0x05ac, 0xb023, "c", None),
    ];
    assert_eq!(picked(&nodes, "046d:b023", None), vec!["a"]);
}

#[test]
fn candidates_keep_enumeration_order() {
    let nodes = vec![
        node(0x046d, 0xb023, "first", None),
        node(0x046d, 0xb023, "second", None),
        node(0x046d, 0xb023, "third", None),
    ];
    assert_eq!(
        picked(&nodes, "046d:b023", None),
        vec!["first", "second", "third"]
    );
}

#[test]
fn a_configured_serial_narrows_to_the_node_reporting_it() {
    let nodes = vec![
        node(0x046d, 0xb023, "other-unit", Some("AAAA")),
        node(0x046d, 0xb023, "mine", Some("BBBB")),
    ];
    assert_eq!(picked(&nodes, "046d:b023", Some("BBBB")), vec!["mine"]);
}

#[test]
fn a_serial_match_ignores_case() {
    let nodes = vec![node(0x046d, 0xb023, "mine", Some("abcd1234"))];
    assert_eq!(picked(&nodes, "046d:b023", Some("ABCD1234")), vec!["mine"]);
}

#[test]
fn a_serial_no_node_reports_falls_back_to_vid_pid() {
    // Backends do not always read serials; a configured one must not make
    // the device unreachable.
    let nodes = vec![
        node(0x046d, 0xb023, "a", None),
        node(0x046d, 0xb023, "b", None),
    ];
    assert_eq!(picked(&nodes, "046d:b023", Some("BBBB")), vec!["a", "b"]);
}

#[test]
fn an_empty_serial_is_the_same_as_none() {
    let nodes = vec![node(0x046d, 0xb023, "a", Some("AAAA"))];
    assert_eq!(picked(&nodes, "046d:b023", Some("")), vec!["a"]);
}

#[test]
fn an_id_that_is_not_vid_pid_matches_nothing() {
    let nodes = vec![node(0x046d, 0xb023, "a", None)];
    let got = picked(&nodes, "mx-master", None);
    assert!(got.is_empty(), "got {got:?}");
}

/// The two states the channel can report after the failure.
const STILL_CONNECTED: bool = true;
const GONE: bool = false;

#[test]
fn a_timeout_on_the_switch_request_counts_as_success() {
    assert!(classify_switch_error(Some(LinkFailure::Timeout), GONE, "ctx", "timed out").is_ok());
}

#[test]
fn a_silent_device_on_the_switch_request_counts_as_success() {
    assert!(
        classify_switch_error(Some(LinkFailure::NoResponse), GONE, "ctx", "no response").is_ok()
    );
}

#[test]
fn a_transport_that_died_on_the_switch_request_counts_as_success() {
    assert!(classify_switch_error(
        Some(LinkFailure::Implementation),
        GONE,
        "ctx",
        "disconnected"
    )
    .is_ok());
}

#[test]
fn a_transport_failure_on_a_live_channel_is_a_failure() {
    // The write failed but the link is still there, so the device did not
    // leave — nothing switched.
    assert!(matches!(
        classify_switch_error(
            Some(LinkFailure::Implementation),
            STILL_CONNECTED,
            "ctx",
            "disconnected"
        ),
        Err(DeviceError::Tool(_))
    ));
}

#[test]
fn a_pre_wire_channel_refusal_is_a_failure() {
    // Nothing reached the device, so there is nothing to call a success.
    assert!(classify_switch_error(Some(LinkFailure::Refused), GONE, "ctx", "refused").is_err());
    assert!(!link_gone_after_send(Some(LinkFailure::Refused), GONE));
}

#[test]
fn a_device_level_refusal_is_a_failure() {
    // The device answered; it was still there.
    assert!(classify_switch_error(None, GONE, "ctx", "invalid argument").is_err());
}

#[test]
fn any_other_switch_failure_carries_its_message() {
    match classify_switch_error(
        None,
        GONE,
        "ctx",
        "the received response from the device is (partly) unsupported",
    ) {
        Err(DeviceError::Tool(message)) => assert_eq!(
            message,
            "ctx: the received response from the device is (partly) unsupported"
        ),
        other => panic!("expected Tool, got {other:?}"),
    }
}

#[test]
fn a_tool_message_names_the_device_and_its_serial() {
    let id = DeviceId("046d:b023".to_string());
    assert_eq!(identity(&id, Some("BBBB")), "046d:b023 serial BBBB");
    assert_eq!(identity(&id, None), "046d:b023");
    assert_eq!(identity(&id, Some("")), "046d:b023");
}

#[test]
fn probing_never_outlasts_what_is_left_of_the_operation() {
    assert_eq!(open_budget_ms(), 7500);
    assert_eq!(probe_budget_ms(7500), Some(PROBE_TIMEOUT_MS));
    assert_eq!(probe_budget_ms(1500), Some(1500));
    assert_eq!(probe_budget_ms(400), Some(400));
    assert_eq!(probe_budget_ms(0), None);
}
