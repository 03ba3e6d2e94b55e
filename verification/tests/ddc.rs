//! DDC/CI packets, replies, and which display is which.

use relay_core::display::ddc::{
    input_from_reply, input_packet, pair_displays, parse_feature_reply, pick, read_input_packet,
    read_wait, write_failure, DdcDisplay, RepeatedWrite, PairedDisplay, RegistryNode, DDC_CHIP_ADDRESS_DEFAULT,
    DDC_CHIP_ADDRESS_MCDP29XX, DDC_ITERATIONS, DDC_MCDP_READ_WAIT_MS, DDC_READ_ATTEMPTS,
    DDC_READ_RETRY_WAIT_MS, DDC_WAIT_MS,
};
use relay_core::display::DisplayError;

/// A feature reply for VCP 0x60 carrying `value`, as the AOC sends it.
fn feature_reply(value: u8) -> Vec<u8> {
    vec![
        0x6E, 0x88, 0x02, 0x00, 0x60, 0x00, 0x00, 0x1B, 0x00, value, 0x00, 0x00,
    ]
}

fn two_displays() -> Vec<PairedDisplay<u32>> {
    pair_displays(vec![
        RegistryNode::Framebuffer {
            edid_uuid: Some("AAAA".to_string()),
            name: Some("Display A".to_string()),
        },
        RegistryNode::Proxy {
            external: true,
            payload: 1,
        },
        RegistryNode::Framebuffer {
            edid_uuid: Some("BBBB".to_string()),
            name: None,
        },
        RegistryNode::Proxy {
            external: false,
            payload: 2,
        },
        RegistryNode::Proxy {
            external: true,
            payload: 3,
        },
    ])
}

#[test]
// The checksum is spelled out term by term, `^ 0x00` and all, so it can be
// checked by eye against the packet layout.
#[allow(clippy::identity_op)]
fn the_input_packet_is_byte_for_byte_what_m1ddc_sends() {
    let expected = [
        0x84,
        0x03,
        0x60,
        0x00,
        0x11,
        0x6E ^ 0x51 ^ 0x84 ^ 0x03 ^ 0x60 ^ 0x00 ^ 0x11,
    ];
    assert_eq!(input_packet(17), expected);
}

#[test]
fn a_proxy_belongs_to_the_framebuffer_before_it() {
    let paired = two_displays();
    assert_eq!(paired.len(), 2, "got {paired:?}");
    // A takes the first external proxy; B skips the internal one and
    // takes the third.
    assert_eq!(paired[0].edid_uuid, "AAAA");
    assert_eq!(paired[0].name, "Display A");
    assert_eq!(paired[0].proxy, 1);
    assert_eq!(paired[1].edid_uuid, "BBBB");
    assert_eq!(paired[1].name, "Unknown Display");
    assert_eq!(paired[1].proxy, 3);
}

#[test]
fn a_framebuffer_without_an_edid_uuid_is_dropped() {
    let paired = pair_displays(vec![
        RegistryNode::Framebuffer {
            edid_uuid: None,
            name: Some("Built-in".to_string()),
        },
        RegistryNode::Proxy {
            external: true,
            payload: 1,
        },
    ]);
    assert!(paired.is_empty(), "got {paired:?}");
}

#[test]
fn no_configured_uuid_picks_the_first_display() {
    let paired = two_displays();
    for wanted in [None, Some("")] {
        let picked = pick(&paired, wanted).expect("a display");
        assert_eq!(picked.edid_uuid, "AAAA", "for {wanted:?}");
    }
}

#[test]
fn a_configured_uuid_picks_that_display() {
    let paired = two_displays();
    let picked = pick(&paired, Some("bbbb")).expect("a display");
    assert_eq!(picked.proxy, 3);
}

#[test]
fn an_unknown_uuid_is_not_present() {
    let paired = two_displays();
    let err = pick(&paired, Some("CCCC")).expect_err("no such display");
    match err {
        DisplayError::Tool(message) => assert_eq!(message, "display not present"),
        other => panic!("expected Tool, got {other:?}"),
    }
    let none: [PairedDisplay<u32>; 0] = [];
    assert!(pick(&none, None).is_err());
}

/// The displays here were tuned against these two; changing either is a
/// hardware decision, not a cleanup.
#[test]
fn the_write_cadence_is_the_one_m1ddc_uses() {
    assert_eq!(DDC_ITERATIONS, 2);
    assert_eq!(DDC_WAIT_MS, 10);
}

/// The same kind of guard for the read: the pre-read wait behind an MCDP29xx
/// bridge is five times as long, and only before reading.
#[test]
fn only_the_read_waits_longer_behind_an_mcdp29xx_bridge() {
    assert_ne!(
        DDC_MCDP_READ_WAIT_MS, DDC_WAIT_MS,
        "the pre-read wait is deliberately not the write wait",
    );
    assert_eq!(DDC_MCDP_READ_WAIT_MS, 50);
    assert_eq!(
        read_wait(DDC_CHIP_ADDRESS_MCDP29XX, DDC_WAIT_MS),
        DDC_MCDP_READ_WAIT_MS
    );
    assert_eq!(read_wait(DDC_CHIP_ADDRESS_DEFAULT, DDC_WAIT_MS), DDC_WAIT_MS);
    // The tests' "do not sleep" stays "do not sleep" on every bridge.
    assert_eq!(read_wait(DDC_CHIP_ADDRESS_MCDP29XX, 0), 0);
}

/// The config carries `edid_uuid` as a string, so "not configured" comes
/// in as `""`; the runtime hands it straight over.
#[test]
fn an_empty_configured_uuid_means_the_first_display() {
    assert_eq!(
        DdcDisplay::new(Some(String::new()), "A".into()).edid_uuid(),
        None
    );
    assert_eq!(DdcDisplay::new(None, "A".into()).edid_uuid(), None);
    assert_eq!(
        DdcDisplay::new(Some("AAAA".into()), "A".into()).edid_uuid(),
        Some("AAAA")
    );
}

#[test]
// Spelled out term by term: unlike the write, the read checksum does *not*
// cover the I2C data address.
#[allow(clippy::identity_op)]
fn the_read_request_is_byte_for_byte_what_m1ddc_sends() {
    let expected = [0x82, 0x01, 0x60, 0x6E ^ 0x82 ^ 0x01 ^ 0x60 ^ 0x00];
    assert_eq!(read_input_packet(), expected);
    // The write's checksum seed is the one that differs.
    assert_ne!(read_input_packet()[3], 0x6E ^ 0x51 ^ 0x82 ^ 0x01 ^ 0x60);
}

#[test]
fn a_feature_reply_carries_the_current_input_source() {
    // The reply the AOC sent while showing this Mac's HDMI 1.
    assert_eq!(parse_feature_reply(0x60, &feature_reply(0x11)), Some(17));
    // Both value bytes are read, big-endian.
    let mut wide = feature_reply(0x11);
    wide[8] = 0x01;
    assert_eq!(parse_feature_reply(0x60, &wide), Some(0x0111));
}

#[test]
fn a_reply_that_is_not_the_answer_we_asked_for_is_refused() {
    for (what, byte, value) in [
        ("not a feature reply", 2usize, 0x03u8),
        ("an error result", 3, 0x01),
        ("another VCP code", 4, 0x10),
    ] {
        let mut reply = feature_reply(0x11);
        reply[byte] = value;
        assert_eq!(parse_feature_reply(0x60, &reply), None, "{what}");
    }
    // A reply cut short carries no value to read.
    let short = feature_reply(0x11);
    for len in 0..10 {
        assert_eq!(parse_feature_reply(0x60, &short[..len]), None, "len {len}");
    }
    // And we only accept the feature we asked about.
    assert_eq!(parse_feature_reply(0x10, &feature_reply(0x11)), None);
}

/// The retry has to fit the runtime's decision budget: two healthy reads
/// (~70 ms each) plus this pause must stay well inside it.
#[test]
fn the_retry_pause_is_the_measured_one() {
    assert_eq!(DDC_READ_ATTEMPTS, 2);
    assert_eq!(DDC_READ_RETRY_WAIT_MS, 400);
}

#[test]
fn an_input_source_that_does_not_fit_a_byte_is_unknown() {
    // The config stores input codes as `u8`, so a wider value is one we
    // could never write back; treat it as "did not understand".
    let mut wide = feature_reply(0x11);
    wide[8] = 0x01;
    assert_eq!(input_from_reply(&wide), None);
    assert_eq!(input_from_reply(&feature_reply(0x11)), Some(17));
}

/// Drives one repeated write of `packet` against a channel that answers each
/// write with the next of `answers`, recording every packet written.
fn write_with(packet: &[u8], answers: &[Result<(), i32>]) -> (Result<(), DisplayError>, Vec<Vec<u8>>) {
    let mut written = Vec::new();
    let mut run = RepeatedWrite::new();
    while run.wants_write() {
        written.push(packet.to_vec());
        run.wrote(answers[written.len() - 1]);
    }
    (run.outcome(), written)
}

#[test]
fn a_write_is_repeated_twice() {
    let (result, written) = write_with(&input_packet(17), &[Ok(()), Ok(()), Ok(())]);
    result.expect("write");
    assert_eq!(written.len(), 2, "got {written:?}");
    for call in written.iter() {
        assert_eq!(call, &input_packet(17).to_vec());
    }
}

#[test]
fn a_failed_write_carries_the_ioreturn() {
    let refused = 0xE000_02C7u32 as i32;
    let (result, written) = write_with(&input_packet(17), &[Err(refused), Err(refused)]);
    match result.expect_err("tool error") {
        DisplayError::Tool(message) => assert!(
            message.contains("0xe00002c7"),
            "expected the IOReturn in {message:?}"
        ),
        other => panic!("expected Tool, got {other:?}"),
    }
    // The loop stops at the first failure.
    assert_eq!(written.len(), 1);
}

#[test]
fn a_second_write_refused_fails_after_two_writes() {
    let (result, written) = write_with(&input_packet(18), &[Ok(()), Err(5)]);
    match result {
        Err(DisplayError::Tool(message)) => {
            assert_eq!(message, "IOAVServiceWriteI2C returned 0x00000005")
        }
        other => panic!("expected Tool, got {other:?}"),
    }
    assert_eq!(written.len(), 2);
}

#[test]
fn write_failure_prints_the_code_in_hex() {
    match write_failure(0xE000_02C7u32 as i32) {
        DisplayError::Tool(message) => {
            assert_eq!(message, "IOAVServiceWriteI2C returned 0xe00002c7");
        }
        other => panic!("expected Tool, got {other:?}"),
    }
    match write_failure(5) {
        DisplayError::Tool(message) => {
            assert_eq!(message, "IOAVServiceWriteI2C returned 0x00000005");
        }
        other => panic!("expected Tool, got {other:?}"),
    }
}
