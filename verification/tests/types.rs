//! Device ids.

use relay_core::types::DeviceId;

#[test]
fn vid_pid_parses_lowercase_hex() {
    assert_eq!(
        DeviceId("046d:b366".to_string()).vid_pid(),
        Some((0x046d, 0xb366))
    );
}

#[test]
fn vid_pid_rejects_non_hex() {
    assert_eq!(DeviceId("mx-keyboard".to_string()).vid_pid(), None);
}
