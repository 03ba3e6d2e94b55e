//! Which HID nodes a configured Logitech device may be reached through, and
//! what a failed host change means.

use vstd::prelude::*;

use super::DeviceError;
use crate::text::{ascii_lower, chars_of, concat, eq_ignore_ascii_case};
use crate::types::{spec_vid_pid, DeviceId};

verus! {

/// One enumerate → open → act round trip that takes longer than this means
/// the device is gone or wedged.
pub const OP_TIMEOUT_MS: u64 = 8000;
/// Budget for probing one candidate node: a device that is going to answer
/// answers in tens of milliseconds. Discovery spends the same budget on the
/// same work.
pub const PROBE_TIMEOUT_MS: u64 = 1500;
/// How much of [`OP_TIMEOUT_MS`] is kept back from candidate probing, so that
/// a device whose every node stays silent is reported as not found rather
/// than as wedged.
pub const OPEN_MARGIN_MS: u64 = 500;
/// HID++ device index for a device talking to us directly (BLE or USB cable).
pub const DIRECT_DEVICE_INDEX: u8 = 0xFF;

/// What the candidate selection reads of one enumerated HID++ node.
#[derive(Clone, Debug, PartialEq, Eq)]
pub struct HidNode {
    pub vendor_id: u16,
    pub product_id: u16,
    /// The serial the node reports, if it reports one.
    pub serial_number: Option<String>,
}

/// The indices `i < nodes.len()` whose node satisfies `p`, in order.
pub open spec fn indices_where(nodes: Seq<HidNode>, p: spec_fn(HidNode) -> bool) -> Seq<usize>
    decreases nodes.len(),
{
    if nodes.len() == 0 {
        Seq::empty()
    } else {
        let rest = indices_where(nodes.drop_last(), p);
        if p(nodes.last()) {
            rest.push((nodes.len() - 1) as usize)
        } else {
            rest
        }
    }
}

/// The node carries `key` as its vendor and product id.
pub open spec fn has_key(key: (u16, u16)) -> spec_fn(HidNode) -> bool {
    |n: HidNode| n.vendor_id == key.0 && n.product_id == key.1
}

/// The node carries `key` and reports `serial`, ignoring ASCII case.
pub open spec fn has_key_and_serial(key: (u16, u16), serial: Seq<char>) -> spec_fn(HidNode) -> bool {
    |n: HidNode|
        n.vendor_id == key.0 && n.product_id == key.1 && match n.serial_number {
            Some(s) => ascii_lower(s@) == ascii_lower(serial),
            None => false,
        }
}

/// The nodes worth opening for a device, in enumeration order.
///
/// The `vid:pid` of the configured id is always required: a switch must never
/// reach a device the user did not declare. A configured serial then narrows
/// that set to the nodes reporting it, which is what separates two identical
/// devices; when no candidate reports it the `vid:pid` matches stand, because
/// a backend may not read serials at all. An empty serial is no serial.
pub open spec fn spec_select_candidates(nodes: Seq<HidNode>, id: Seq<char>, serial: Option<Seq<char>>) -> Seq<usize> {
    match spec_vid_pid(id) {
        None => Seq::empty(),
        Some(key) => {
            let by_id = indices_where(nodes, has_key(key));
            match serial {
                Some(s) => if s.len() == 0 {
                    by_id
                } else {
                    let by_serial = indices_where(nodes, has_key_and_serial(key, s));
                    if by_serial.len() == 0 {
                        by_id
                    } else {
                        by_serial
                    }
                },
                None => by_id,
            }
        },
    }
}

fn reports_serial(node: &HidNode, serial: &Vec<char>) -> (r: bool)
    ensures
        r == match node.serial_number {
            Some(s) => ascii_lower(s@) == ascii_lower(serial@),
            None => false,
        },
{
    match &node.serial_number {
        Some(s) => eq_ignore_ascii_case(&chars_of(s.as_str()), serial),
        None => false,
    }
}

/// The indices of the nodes carrying `key`, and reporting `serial` when one
/// is given.
fn matching(nodes: &[HidNode], key: (u16, u16), serial: Option<&Vec<char>>) -> (r: Vec<usize>)
    ensures
        r@ == match serial {
            Some(s) => indices_where(nodes@, has_key_and_serial(key, s@)),
            None => indices_where(nodes@, has_key(key)),
        },
{
    let ghost p = match serial {
        Some(s) => has_key_and_serial(key, s@),
        None => has_key(key),
    };
    let mut out: Vec<usize> = Vec::new();
    let mut i: usize = 0;
    while i < nodes.len()
        invariant
            i <= nodes@.len(),
            p == (match serial {
                Some(s) => has_key_and_serial(key, s@),
                None => has_key(key),
            }),
            out@ == indices_where(nodes@.take(i as int), p),
        decreases nodes@.len() - i,
    {
        assert(nodes@.take(i + 1).drop_last() =~= nodes@.take(i as int));
        assert(nodes@.take(i + 1).last() == nodes@[i as int]);
        let node = &nodes[i];
        let keyed = node.vendor_id == key.0 && node.product_id == key.1;
        let wanted = match serial {
            Some(s) => keyed && reports_serial(node, s),
            None => keyed,
        };
        if wanted {
            out.push(i);
        }
        i = i + 1;
    }
    assert(nodes@.take(nodes@.len() as int) =~= nodes@);
    out
}

/// The nodes worth opening for the device `id`, as indices into `nodes`.
pub fn select_candidates(nodes: &[HidNode], id: &DeviceId, serial: Option<&str>) -> (r: Vec<usize>)
    ensures
        r@ == spec_select_candidates(
            nodes@,
            id@,
            match serial {
                Some(s) => Some(s@),
                None => None,
            },
        ),
{
    let key = match id.vid_pid() {
        Some(key) => key,
        // Not a `vid:pid` id; nothing can be matched against it.
        None => return Vec::new(),
    };
    let by_id = matching(nodes, key, None);
    let s = match serial {
        Some(s) => s,
        None => return by_id,
    };
    if s.is_empty() {
        return by_id;
    }
    let wanted = chars_of(s);
    let by_serial = matching(nodes, key, Some(&wanted));
    if by_serial.len() == 0 {
        by_id
    } else {
        by_serial
    }
}

/// How a device is named in a log line or an error message: its configured
/// `vid:pid`, plus the serial that narrows it when there is one.
pub open spec fn spec_identity(id: Seq<char>, serial: Option<Seq<char>>) -> Seq<char> {
    match serial {
        Some(s) => if s.len() > 0 {
            id + " serial "@ + s
        } else {
            id
        },
        None => id,
    }
}

pub fn identity(id: &DeviceId, serial: Option<&str>) -> (r: String)
    ensures
        r@ == spec_identity(
            id@,
            match serial {
                Some(s) => Some(s@),
                None => None,
            },
        ),
{
    match serial {
        Some(s) => if s.is_empty() {
            id.0.clone()
        } else {
            let head = concat(id.0.as_str(), " serial ");
            let r = concat(head.as_str(), s);
            assert(r@ =~= id@ + " serial "@ + s@);
            r
        },
        None => id.0.clone(),
    }
}

/// How long candidate probing may run in all: the operation's budget less the
/// margin kept back for the operation itself.
pub fn open_budget_ms() -> (r: u64)
    ensures
        r == OP_TIMEOUT_MS - OPEN_MARGIN_MS,
{
    OP_TIMEOUT_MS - OPEN_MARGIN_MS
}

/// The budget for probing the next candidate when `remaining_ms` of the
/// probing budget is left: `None` once it is spent (the remaining candidates
/// are not tried), else the per-candidate budget, never more than what is
/// left. Enough silent nodes would otherwise spend more than the operation's
/// budget between them.
pub fn probe_budget_ms(remaining_ms: u64) -> (r: Option<u64>)
    ensures
        remaining_ms == 0 ==> r is None,
        remaining_ms > 0 ==> r == Some(if remaining_ms < PROBE_TIMEOUT_MS { remaining_ms } else { PROBE_TIMEOUT_MS }),
{
    if remaining_ms == 0 {
        None
    } else if remaining_ms < PROBE_TIMEOUT_MS {
        Some(remaining_ms)
    } else {
        Some(PROBE_TIMEOUT_MS)
    }
}

/// The channel failure found first along an error's chain of sources.
#[derive(Clone, Copy, Debug, PartialEq, Eq)]
pub enum LinkFailure {
    /// The channel waited for an answer that did not come in time.
    Timeout,
    /// The channel got no response at all.
    NoResponse,
    /// The raw HID write failed.
    Implementation,
    /// A refusal raised before anything reached the wire.
    Refused,
}

/// Whether a failed host change means "the request went out and the link
/// then went away" — the device switched — rather than "the device answered
/// no" or "the write never landed".
///
/// A failed raw write counts as the device leaving only when the transport
/// agrees it is gone: a write that failed on a channel still reporting itself
/// connected is a plain failure, and calling it a successful switch would tell
/// the user their keyboard moved when it did not. No channel failure in the
/// chain at all means the device itself answered.
pub open spec fn spec_link_gone(failure: Option<LinkFailure>, still_connected: bool) -> bool {
    match failure {
        Some(LinkFailure::Timeout) => true,
        Some(LinkFailure::NoResponse) => true,
        Some(LinkFailure::Implementation) => !still_connected,
        _ => false,
    }
}

pub fn link_gone_after_send(failure: Option<LinkFailure>, still_connected: bool) -> (r: bool)
    ensures
        r == spec_link_gone(failure, still_connected),
{
    match failure {
        Some(LinkFailure::Timeout) => true,
        Some(LinkFailure::NoResponse) => true,
        Some(LinkFailure::Implementation) => !still_connected,
        _ => false,
    }
}

/// What a failed host change reports: success when the link went away after
/// the request went out, else the failure with its context.
pub fn classify_switch_error(failure: Option<LinkFailure>, still_connected: bool, context: &str, chain: &str) -> (r: Result<(), DeviceError>)
    ensures
        spec_link_gone(failure, still_connected) ==> r is Ok,
        !spec_link_gone(failure, still_connected) ==> (r matches Err(DeviceError::Tool(m)) && m@ == context@ + ": "@ + chain@),
{
    if link_gone_after_send(failure, still_connected) {
        Ok(())
    } else {
        let head = concat(context, ": ");
        let m = concat(head.as_str(), chain);
        assert(m@ =~= context@ + ": "@ + chain@);
        Err(DeviceError::Tool(m))
    }
}

} // verus!
