//! What a device scan lists: one row per physical device, described from its
//! own answers where it gives them.

use vstd::prelude::*;

use crate::text::{
    ascii_lower, chars_of, concat, eq_ignore_ascii_case, hex4, hex4_text, string_of, unpadded,
    unpadded_bounds,
};
use crate::types::{DeviceId, DeviceRole, HostInfo};

verus! {

/// Budget for describing a node that already proved it switches hosts.
pub const NODE_TIMEOUT_MS: u64 = 3000;
/// Budget for the whole scan; whatever was found by then is returned.
pub const SCAN_TIMEOUT_MS: u64 = 10000;

/// One switchable device the scan found, as the settings window lists it.
#[derive(Clone, Debug, PartialEq)]
pub struct DiscoveredDevice {
    /// The `vid:pid` form `DeviceConfig.id` uses.
    pub id: DeviceId,
    /// What narrows the id when two identical devices are attached. `None`
    /// when neither the device nor its HID node reports one.
    pub serial: Option<String>,
    /// Marketing name; display only, it never takes part in matching.
    pub name: String,
    /// How many host slots the device has.
    pub host_count: u8,
    /// The slot it is on right now, 0-based as HID++ numbers them.
    pub current_host: u8,
    /// What the device says it is. Only a guess: the user still confirms it.
    pub role_guess: DeviceRole,
}

/// A string the device sent, or `None` when there is nothing in it.
///
/// Serial numbers and name chunks arrive in fixed-width fields, so anything
/// shorter is padded with NULs or spaces; both are trimmed from either end.
pub fn clean(raw: &str) -> (r: Option<String>)
    ensures
        match r {
            Some(s) => s@ == unpadded(raw@) && s@.len() > 0,
            None => unpadded(raw@).len() == 0,
        },
{
    let v = chars_of(raw);
    let (lo, hi) = unpadded_bounds(&v);
    if lo == hi {
        None
    } else {
        Some(string_of(&v, lo, hi))
    }
}

/// The id a node with this vendor and product id is configured under:
/// `vid:pid` in four lower-case hex digits each.
pub open spec fn spec_node_id(vid: u16, pid: u16) -> Seq<char> {
    hex4(vid) + seq![':'] + hex4(pid)
}

pub fn node_id(vid: u16, pid: u16) -> (r: DeviceId)
    ensures
        r@ == spec_node_id(vid, pid),
{
    let v = hex4_text(vid);
    let with_colon = concat(v.as_str(), ":");
    let p = hex4_text(pid);
    let text = concat(with_colon.as_str(), p.as_str());
    proof {
        reveal_strlit(":");
        assert(text@ =~= spec_node_id(vid, pid));
    }
    DeviceId(text)
}

/// Do two described nodes belong to one physical device?
///
/// A serial is the real answer: one device publishes several HID++ nodes and
/// every one of them reports the same serial, in whatever case the device
/// likes. Without a serial the marketing name is the best tiebreak left: it
/// merges two identical unserialised devices, which the settings window could
/// not have told apart anyway.
pub open spec fn same_device(a: DiscoveredDevice, b: DiscoveredDevice) -> bool {
    a.id@ == b.id@ && match (a.serial, b.serial) {
        (Some(x), Some(y)) => ascii_lower(x@) == ascii_lower(y@),
        (None, None) => a.name@ == b.name@,
        _ => false,
    }
}

fn same_device_exec(a: &DiscoveredDevice, b: &DiscoveredDevice) -> (r: bool)
    ensures
        r == same_device(*a, *b),
{
    if !a.id.same(&b.id) {
        return false;
    }
    match (&a.serial, &b.serial) {
        (Some(x), Some(y)) => eq_ignore_ascii_case(&chars_of(x.as_str()), &chars_of(y.as_str())),
        (None, None) => a.name == b.name,
        _ => false,
    }
}

/// Adds `device` to the scan's list unless another node of the same device
/// is listed already; says whether it was added.
pub fn list_once(found: &mut Vec<DiscoveredDevice>, device: DiscoveredDevice) -> (r: bool)
    ensures
        r == !(exists|i: int| 0 <= i < old(found)@.len() && same_device(#[trigger] old(found)@[i], device)),
        r ==> final(found)@ == old(found)@.push(device),
        !r ==> final(found)@ == old(found)@,
{
    let mut i: usize = 0;
    while i < found.len()
        invariant
            i <= found@.len(),
            forall|j: int| 0 <= j < i ==> !same_device(#[trigger] found@[j], device),
        decreases found@.len() - i,
    {
        if same_device_exec(&found[i], &device) {
            assert(same_device(found@[i as int], device));
            return false;
        }
        i = i + 1;
    }
    found.push(device);
    true
}

/// The scan's list never holds two nodes of one device, whatever order the
/// nodes arrive in.
pub proof fn lemma_listed_once(before: Seq<DiscoveredDevice>, device: DiscoveredDevice, after: Seq<DiscoveredDevice>)
    requires
        forall|i: int, j: int| 0 <= i < j < before.len() ==> !same_device(#[trigger] before[i], #[trigger] before[j]),
        (after == before.push(device) && !(exists|i: int| 0 <= i < before.len() && same_device(#[trigger] before[i], device)))
            || after == before,
    ensures
        forall|i: int, j: int| 0 <= i < j < after.len() ==> !same_device(#[trigger] after[i], #[trigger] after[j]),
{
    if after != before {
        assert forall|i: int, j: int| 0 <= i < j < after.len() implies !same_device(#[trigger] after[i], #[trigger] after[j]) by {
            if j == before.len() {
                assert(after[i] == before[i]);
                assert(after[j] == device);
            } else {
                assert(after[i] == before[i]);
                assert(after[j] == before[j]);
            }
        }
    }
}

/// What [`list_once`] leaves in `found` for `device`.
pub open spec fn listed_with(found: Seq<DiscoveredDevice>, device: DiscoveredDevice) -> Seq<DiscoveredDevice> {
    if exists|i: int| 0 <= i < found.len() && same_device(#[trigger] found[i], device) {
        found
    } else {
        found.push(device)
    }
}

/// The list a scan builds from `found` by handing it `nodes`, in order, to
/// [`list_once`].
pub open spec fn listed_all(found: Seq<DiscoveredDevice>, nodes: Seq<DiscoveredDevice>) -> Seq<DiscoveredDevice>
    decreases nodes.len(),
{
    if nodes.len() == 0 {
        found
    } else {
        listed_all(listed_with(found, nodes[0]), nodes.drop_first())
    }
}

/// `found` has an entry for the device `node` belongs to.
pub open spec fn has_entry_for(found: Seq<DiscoveredDevice>, node: DiscoveredDevice) -> bool {
    exists|i: int| 0 <= i < found.len() && same_device(#[trigger] found[i], node)
}

/// No two entries of `found` are nodes of one device.
pub open spec fn listed_once(found: Seq<DiscoveredDevice>) -> bool {
    forall|i: int, j: int| 0 <= i < j < found.len() ==> !same_device(#[trigger] found[i], #[trigger] found[j])
}

/// A whole scan lists each device once: whatever nodes it meets, in whatever
/// order, the list it ends with has no two nodes of one device, has an entry
/// for every node it met, and lists only nodes it met, each at its first
/// sighting.
pub proof fn lemma_scan_lists_each_device_once(found: Seq<DiscoveredDevice>, nodes: Seq<DiscoveredDevice>)
    requires
        listed_once(found),
    ensures
        listed_once(listed_all(found, nodes)),
        forall|k: int| 0 <= k < nodes.len() ==> has_entry_for(listed_all(found, nodes), #[trigger] nodes[k]),
        forall|i: int|
            0 <= i < listed_all(found, nodes).len() ==> i < found.len() || nodes.contains(
                #[trigger] listed_all(found, nodes)[i],
            ),
        listed_all(found, nodes).len() >= found.len(),
        listed_all(found, nodes).subrange(0, found.len() as int) == found,
    decreases nodes.len(),
{
    if nodes.len() == 0 {
        assert(found.subrange(0, found.len() as int) =~= found);
    } else {
        let next = listed_with(found, nodes[0]);
        let rest = nodes.drop_first();
        let r = listed_all(found, nodes);
        lemma_listed_once(found, nodes[0], next);
        lemma_scan_lists_each_device_once(next, rest);
        assert(r == listed_all(next, rest));
        assert(next.subrange(0, found.len() as int) =~= found);
        assert(r.subrange(0, found.len() as int) =~= r.subrange(0, next.len() as int).subrange(
            0,
            found.len() as int,
        ));
        assert forall|k: int| 0 <= k < nodes.len() implies has_entry_for(r, #[trigger] nodes[k]) by {
            if k == 0 {
                if exists|i: int| 0 <= i < found.len() && same_device(#[trigger] found[i], nodes[0]) {
                    let i = choose|i: int| 0 <= i < found.len() && same_device(#[trigger] found[i], nodes[0]);
                    assert(r[i] == r.subrange(0, found.len() as int)[i]);
                    assert(same_device(r[i], nodes[k]));
                } else {
                    let i = found.len() as int;
                    assert(next[i] == nodes[0]);
                    assert(r[i] == r.subrange(0, next.len() as int)[i]);
                    assert(same_device(r[i], nodes[k]));
                }
            } else {
                assert(nodes[k] == rest[k - 1]);
                assert(has_entry_for(listed_all(next, rest), rest[k - 1]));
            }
        }
        assert forall|i: int| 0 <= i < r.len() implies i < found.len() || nodes.contains(#[trigger] r[i]) by {
            if i >= found.len() {
                if i < next.len() {
                    assert(r[i] == r.subrange(0, next.len() as int)[i]);
                    assert(r[i] == nodes[0]);
                } else {
                    let k = choose|k: int| 0 <= k < rest.len() && rest[k] == r[i];
                    assert(nodes[k + 1] == rest[k]);
                }
            }
        }
    }
}

/// One HID device as the settings window's raw device list shows it.
#[derive(Clone, Debug, PartialEq, Eq)]
pub struct HidDeviceInfo {
    /// Four lower-case hex digits each.
    pub vid: String,
    pub pid: String,
    /// `vid:pid`, the form the config's device ids take.
    pub id: String,
    pub name: String,
}

impl HidDeviceInfo {
    pub fn of(vid: u16, pid: u16, name: String) -> (r: HidDeviceInfo)
        ensures
            r.vid@ == hex4(vid),
            r.pid@ == hex4(pid),
            r.id@ == spec_node_id(vid, pid),
            r.name@ == name@,
    {
        let id = node_id(vid, pid);
        HidDeviceInfo { vid: hex4_text(vid), pid: hex4_text(pid), id: id.0, name }
    }
}

/// The device type a device reports about itself, as far as roles go.
#[derive(Clone, Copy, Debug, PartialEq, Eq)]
pub enum DeviceKind {
    Keyboard,
    Mouse,
    Trackpad,
    Trackball,
    Receiver,
    Headset,
    /// Any other type: a presenter, a webcam, a dock, ...
    Other,
}

/// What a device is for, as far as the scan can tell. Only the two roles the
/// switch acts on are named; a trackball or a trackpad is the same pointer as
/// a mouse to everything above the device layer.
pub open spec fn spec_role_of(kind: DeviceKind) -> DeviceRole {
    match kind {
        DeviceKind::Keyboard => DeviceRole::Keyboard,
        DeviceKind::Mouse | DeviceKind::Trackpad | DeviceKind::Trackball => DeviceRole::Mouse,
        _ => DeviceRole::Other,
    }
}

pub fn role_of(kind: DeviceKind) -> (r: DeviceRole)
    ensures
        r == spec_role_of(kind),
{
    match kind {
        DeviceKind::Keyboard => DeviceRole::Keyboard,
        DeviceKind::Mouse | DeviceKind::Trackpad | DeviceKind::Trackball => DeviceRole::Mouse,
        _ => DeviceRole::Other,
    }
}

/// The text of an optional string.
pub open spec fn opt_text(s: Option<String>) -> Option<Seq<char>> {
    match s {
        Some(t) => Some(t@),
        None => None,
    }
}

/// The serial a row lists: the device's own answer, else what its HID node
/// reported, with the padding gone and nothing left meaning none.
pub open spec fn listed_serial(own: Option<Seq<char>>, node: Option<Seq<char>>) -> Option<Seq<char>> {
    match own {
        Some(s) => Some(s),
        None => match node {
            Some(n) => if unpadded(n).len() > 0 {
                Some(unpadded(n))
            } else {
                None
            },
            None => None,
        },
    }
}

impl DiscoveredDevice {
    /// The row for the node `vid:pid` that reported `node_serial` and
    /// `node_name` and exposes host slots `hosts`, from whatever the device
    /// itself answered: its name, its type and its serial. A device that hides
    /// them is still switchable, so each falls back to what the node said.
    pub fn describe(
        vid: u16,
        pid: u16,
        node_serial: Option<&str>,
        node_name: &str,
        hosts: HostInfo,
        name: Option<String>,
        kind: Option<DeviceKind>,
        serial: Option<String>,
    ) -> (r: DiscoveredDevice)
        ensures
            r.id@ == spec_node_id(vid, pid),
            opt_text(r.serial) == listed_serial(
                opt_text(serial),
                match node_serial {
                    Some(n) => Some(n@),
                    None => None,
                },
            ),
            r.name@ == match name {
                Some(n) => n@,
                None => node_name@,
            },
            r.host_count == hosts.count,
            r.current_host == hosts.current,
            r.role_guess == match kind {
                Some(k) => spec_role_of(k),
                None => DeviceRole::Other,
            },
    {
        let serial = match serial {
            Some(s) => Some(s),
            None => match node_serial {
                Some(n) => clean(n),
                None => None,
            },
        };
        let name = match name {
            Some(n) => n,
            None => node_name.to_owned(),
        };
        let role_guess = match kind {
            Some(k) => role_of(k),
            None => DeviceRole::Other,
        };
        DiscoveredDevice {
            id: node_id(vid, pid),
            serial,
            name,
            host_count: hosts.count,
            current_host: hosts.current,
            role_guess,
        }
    }
}

} // verus!
