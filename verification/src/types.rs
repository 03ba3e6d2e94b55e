//! Shared value types: hosts, device identity and trigger events.

use vstd::prelude::*;

use crate::text::{chars_of, parse_uint, parse_unsigned};

verus! {

/// A host slot, 0-based, exactly as HID++ numbers them. The UI shows index + 1.
pub type HostIndex = u8;

/// Stable identity of a configured input device.
///
/// The `vid:pid` hex form, e.g. `"046d:b366"`; anything after the second
/// field is opaque here.
#[derive(Clone, Debug, PartialEq, Eq, Hash)]
pub struct DeviceId(pub String);

impl View for DeviceId {
    type V = Seq<char>;

    open spec fn view(&self) -> Seq<char> {
        self.0@
    }
}

/// The first index at or after `from` where `s` holds `c`, or `s.len()`.
pub open spec fn find_char(s: Seq<char>, c: char, from: int) -> int
    decreases s.len() - from,
{
    if from >= s.len() {
        s.len() as int
    } else if s[from] == c {
        from
    } else {
        find_char(s, c, from + 1)
    }
}

/// What `DeviceId::vid_pid` reads out of `s`: the first two `:`-separated
/// fields, each a 16-bit hex number as `u16::from_str_radix` accepts it.
pub open spec fn spec_vid_pid(s: Seq<char>) -> Option<(u16, u16)> {
    let first_end = find_char(s, ':', 0);
    if first_end >= s.len() {
        None
    } else {
        let second_end = find_char(s, ':', first_end + 1);
        match (
            parse_unsigned(s.subrange(0, first_end), 16, 0xFFFF),
            parse_unsigned(s.subrange(first_end + 1, second_end), 16, 0xFFFF),
        ) {
            (Some(vid), Some(pid)) => Some((vid as u16, pid as u16)),
            _ => None,
        }
    }
}

/// The index of the first `c` in `v` at or after `from`, or `v.len()`.
pub fn find(v: &Vec<char>, c: char, from: usize) -> (r: usize)
    requires
        from <= v@.len(),
    ensures
        r == find_char(v@, c, from as int),
        from <= r <= v@.len(),
{
    let mut i = from;
    while i < v.len() && v[i] != c
        invariant
            from <= i <= v@.len(),
            find_char(v@, c, from as int) == find_char(v@, c, i as int),
        decreases v@.len() - i,
    {
        i = i + 1;
    }
    i
}

impl DeviceId {
    /// Parses the leading `vid:pid` pair, or `None` if the id is not in that form.
    pub fn vid_pid(&self) -> (r: Option<(u16, u16)>)
        ensures
            r == spec_vid_pid(self@),
    {
        let v = chars_of(self.0.as_str());
        let first_end = find(&v, ':', 0);
        if first_end >= v.len() {
            return None;
        }
        let second_end = find(&v, ':', first_end + 1);
        let vid = parse_uint(&v, 0, first_end, 16, 0xFFFF);
        let pid = parse_uint(&v, first_end + 1, second_end, 16, 0xFFFF);
        match (vid, pid) {
            (Some(vid), Some(pid)) => Some((vid as u16, pid as u16)),
            _ => None,
        }
    }

    /// A second id spelling the same text.
    pub fn copied(&self) -> (r: DeviceId)
        ensures
            r == *self,
    {
        DeviceId(self.0.clone())
    }

    /// Do the two ids spell the same text?
    pub fn same(&self, other: &DeviceId) -> (r: bool)
        ensures
            r == (self@ == other@),
    {
        crate::text::str_eq(self.0.as_str(), other.0.as_str())
    }
}

/// What a device is used for; drives the switch order and the UI.
#[derive(Clone, Copy, Debug, PartialEq, Eq, Structural)]
pub enum DeviceRole {
    Keyboard,
    Mouse,
    Other,
}

/// Host slots as reported by a device's HID++ `ChangeHost` feature.
#[derive(Clone, Copy, Debug, PartialEq, Eq, Structural)]
pub struct HostInfo {
    pub count: u8,
    pub current: u8,
}

/// Anything that can ask for a switch: presence changes or an explicit request.
#[derive(Clone, Debug, PartialEq, Eq)]
pub enum TriggerEvent {
    DeviceLeft(DeviceId),
    DeviceArrived(DeviceId),
    Manual { target: HostIndex, source: &'static str },
}

} // verus!
