//! Speaking DDC/CI to a display: the packets, the reply checks, and the rules
//! for pairing framebuffers with their DDC channels and picking the display
//! the config names.
//!
//! The walk over the platform's device registry and the I2C reads and writes
//! themselves belong to the platform layer; everything it decides with goes
//! through here.

use vstd::prelude::*;

use super::DisplayError;
use crate::text::{ascii_lower, chars_of, concat, eq_ignore_ascii_case, hex8, hex_text};

verus! {

/// DDC/CI over I2C lives at chip address 0x37 on all but one bridge.
pub const DDC_CHIP_ADDRESS_DEFAULT: u32 = 0x37;
/// MCDP29xx bridges route DDC through 0xB7 instead.
pub const DDC_CHIP_ADDRESS_MCDP29XX: u32 = 0xB7;
/// The I2C data address DDC/CI writes go to.
pub const DDC_DATA_ADDRESS: u32 = 0x51;
/// VCP feature code "Input Source".
pub const VCP_INPUT_SOURCE: u8 = 0x60;
/// Displays drop writes often enough that every packet is sent twice, with
/// this pause before each write.
pub const DDC_ITERATIONS: usize = 2;
pub const DDC_WAIT_MS: u64 = 10;
/// MCDP29xx bridges need longer than [`DDC_WAIT_MS`] before the reply can be
/// fetched — 10 ms comes back empty on those. This is the *pre-read* wait
/// only: the write cadence stays [`DDC_WAIT_MS`] everywhere.
pub const DDC_MCDP_READ_WAIT_MS: u64 = 50;
/// How many bytes a "Get VCP Feature Reply" is fetched in; only the first ten
/// carry the answer.
pub const DDC_REPLY_LEN: usize = 12;
/// How many times a read is attempted before giving up.
pub const DDC_READ_ATTEMPTS: usize = 2;
/// How long to wait before the second attempt: right after the monitor
/// changed input source the DDC channel of the Mac it switched *to* is not
/// ready for about two seconds.
pub const DDC_READ_RETRY_WAIT_MS: u64 = 400;
/// A DDC exchange that takes longer than this means the display is not
/// answering.
pub const TOOL_TIMEOUT_MS: u64 = 8000;
/// What a framebuffer with no product name is called.
pub const UNKNOWN_DISPLAY: &'static str = "Unknown Display";

/// One display the settings page can offer to add.
#[derive(Clone, Debug, PartialEq)]
pub struct DiscoveredDisplay {
    pub edid_uuid: String,
    pub name: String,
}

/// A configured display, looked up afresh on every write.
///
/// Nothing is cached: a DDC channel does not survive a sleep or a cable swap,
/// and switches are rare enough that a full registry walk is cheap.
pub struct DdcDisplay {
    /// `None` means "the first external display", which is what a
    /// single-monitor setup wants.
    edid_uuid: Option<String>,
    name: String,
}

/// The text an optional string holds, if it holds one.
pub open spec fn opt_view(o: Option<String>) -> Option<Seq<char>> {
    match o {
        Some(s) => Some(s@),
        None => None,
    }
}

impl DdcDisplay {
    pub closed spec fn spec_edid_uuid(&self) -> Option<Seq<char>> {
        opt_view(self.edid_uuid)
    }

    pub closed spec fn spec_name(&self) -> Seq<char> {
        self.name@
    }

    /// An empty configured UUID means the same as none: the first display.
    pub fn new(edid_uuid: Option<String>, name: String) -> (r: DdcDisplay)
        ensures
            r.spec_edid_uuid() == (match edid_uuid {
                Some(u) => if u@.len() > 0 {
                    Some(u@)
                } else {
                    None
                },
                None => None,
            }),
            r.spec_name() == name@,
    {
        let edid_uuid = match edid_uuid {
            Some(u) => if u.as_str().is_empty() {
                None
            } else {
                Some(u)
            },
            None => None,
        };
        DdcDisplay { edid_uuid, name }
    }

    /// The display the config names, or `None` for the first one.
    pub fn edid_uuid(&self) -> (r: Option<&str>)
        ensures
            match r {
                Some(u) => self.spec_edid_uuid() == Some(u@),
                None => self.spec_edid_uuid() is None,
            },
    {
        match &self.edid_uuid {
            Some(u) => Some(u.as_str()),
            None => None,
        }
    }

    pub fn name(&self) -> (r: &str)
        ensures
            r@ == self.spec_name(),
    {
        self.name.as_str()
    }
}

// ---------------------------------------------------------------------------
// Packets and replies.
// ---------------------------------------------------------------------------

/// The DDC/CI "Set VCP Feature" packet for input source `code`: header,
/// length, VCP code, big-endian value, then a checksum that also covers the
/// I2C data address.
pub open spec fn spec_input_packet(code: u8) -> Seq<u8> {
    seq![0x84u8, 0x03u8, VCP_INPUT_SOURCE, 0x00u8, code, 0x6Eu8 ^ 0x51u8 ^ 0x84u8 ^ 0x03u8 ^ VCP_INPUT_SOURCE ^ 0x00u8 ^ code]
}

pub fn input_packet(code: u8) -> (r: [u8; 6])
    ensures
        r@ == spec_input_packet(code),
{
    let checksum = 0x6Eu8 ^ 0x51u8 ^ 0x84u8 ^ 0x03u8 ^ VCP_INPUT_SOURCE ^ 0x00u8 ^ code;
    let r = [0x84u8, 0x03u8, VCP_INPUT_SOURCE, 0x00u8, code, checksum];
    assert(r@ =~= spec_input_packet(code));
    r
}

/// The DDC/CI "Get VCP Feature" request for the input source. Unlike the
/// write above, its checksum is seeded with 0x6E alone and does **not** cover
/// the I2C data address; getting that wrong yields a display that never
/// answers.
pub open spec fn spec_read_input_packet() -> Seq<u8> {
    seq![0x82u8, 0x01u8, VCP_INPUT_SOURCE, 0x6Eu8 ^ 0x82u8 ^ 0x01u8 ^ VCP_INPUT_SOURCE]
}

pub fn read_input_packet() -> (r: [u8; 4])
    ensures
        r@ == spec_read_input_packet(),
{
    let checksum = 0x6Eu8 ^ 0x82u8 ^ 0x01u8 ^ VCP_INPUT_SOURCE;
    let r = [0x82u8, 0x01u8, VCP_INPUT_SOURCE, checksum];
    assert(r@ =~= spec_read_input_packet());
    r
}

/// The current value out of a DDC/CI "Get VCP Feature Reply" for `vcp`.
///
/// `None` unless the reply really is the answer to the question asked:
/// `buf[2]` is the feature-reply opcode (0x02), `buf[3]` the result code
/// (0 = no error) and `buf[4]` the VCP code echoed back. The current value is
/// big-endian in `buf[8..10]`. A reply shorter than that carries no answer.
pub open spec fn spec_parse_feature_reply(vcp: u8, buf: Seq<u8>) -> Option<u16> {
    if buf.len() < 10 || buf[2] != 0x02 || buf[3] != 0x00 || buf[4] != vcp {
        None
    } else {
        Some((buf[8] * 256 + buf[9]) as u16)
    }
}

pub fn parse_feature_reply(vcp: u8, buf: &[u8]) -> (r: Option<u16>)
    ensures
        r == spec_parse_feature_reply(vcp, buf@),
{
    if buf.len() < 10 {
        return None;
    }
    if buf[2] != 0x02 || buf[3] != 0x00 || buf[4] != vcp {
        return None;
    }
    Some((buf[8] as u16) * 256 + (buf[9] as u16))
}

/// The input source a reply to [`read_input_packet`] reports, if it is one
/// the config can hold: the config stores input codes as bytes, so a wider
/// one is a value we could never write back. A read failure must never be
/// mistaken for a value.
pub fn input_from_reply(reply: &[u8]) -> (r: Option<u8>)
    ensures
        r == (match spec_parse_feature_reply(VCP_INPUT_SOURCE, reply@) {
            Some(v) => if v <= 0xFF {
                Some(v as u8)
            } else {
                None
            },
            None => None,
        }),
{
    match parse_feature_reply(VCP_INPUT_SOURCE, reply) {
        Some(v) => if v <= 0xFF {
            Some(v as u8)
        } else {
            None
        },
        None => None,
    }
}

/// How long to wait after the request before fetching the reply.
///
/// A zero wait stays zero: the tests use it to mean "do not sleep".
pub fn read_wait(chip: u32, wait_ms: u64) -> (r: u64)
    ensures
        r == (if wait_ms == 0 || chip != DDC_CHIP_ADDRESS_MCDP29XX {
            wait_ms
        } else {
            DDC_MCDP_READ_WAIT_MS
        }),
{
    if wait_ms == 0 || chip != DDC_CHIP_ADDRESS_MCDP29XX {
        wait_ms
    } else {
        DDC_MCDP_READ_WAIT_MS
    }
}

/// The error a refused I2C write reports, carrying its return code the way
/// the platform prints it: the code's 32 bits in hex.
pub fn write_failure(ret: i32) -> (r: DisplayError)
    ensures
        is_write_failure(r, ret),
{
    let digits = hex_text(ret as u32);
    DisplayError::Tool(concat("IOAVServiceWriteI2C returned 0x", digits.as_str()))
}

// ---------------------------------------------------------------------------
// Sending one packet.
// ---------------------------------------------------------------------------

/// One packet sent [`DDC_ITERATIONS`] times, stopping at the first refused
/// write. The platform layer pauses and writes while [`RepeatedWrite::wants_write`]
/// holds, hands each write's result to [`RepeatedWrite::wrote`], and then
/// takes the [`RepeatedWrite::outcome`].
pub struct RepeatedWrite {
    writes: usize,
    refused: Option<i32>,
}

/// Where a repeated write stands: how many writes were made, and the return
/// code of the one that was refused, if one was.
pub open spec fn repeat_wf(writes: nat, refused: Option<i32>) -> bool {
    &&& writes <= DDC_ITERATIONS
    &&& refused is Some ==> writes >= 1
}

/// Another write is due: fewer than [`DDC_ITERATIONS`] were made and none
/// was refused.
pub open spec fn repeat_wants(writes: nat, refused: Option<i32>) -> bool {
    writes < DDC_ITERATIONS && refused is None
}

/// The state after one more write with `result`.
pub open spec fn repeat_after(state: (nat, Option<i32>), result: Result<(), i32>) -> (
    nat,
    Option<i32>,
) {
    (
        state.0 + 1,
        match result {
            Ok(()) => None,
            Err(ret) => Some(ret),
        },
    )
}

/// Feeds the display's answers `results`, in order, to a repeated write for
/// as long as it wants another write.
pub open spec fn repeat_run(state: (nat, Option<i32>), results: Seq<Result<(), i32>>) -> (
    nat,
    Option<i32>,
)
    decreases results.len(),
{
    if results.len() == 0 || !repeat_wants(state.0, state.1) {
        state
    } else {
        repeat_run(repeat_after(state, results[0]), results.drop_first())
    }
}

/// A packet is written until a write is refused, and at most
/// [`DDC_ITERATIONS`] times: every write before the last went through, the
/// run fails with the last write's code exactly when that one was refused,
/// and it succeeds only after [`DDC_ITERATIONS`] writes that all went through.
pub proof fn lemma_write_stops_at_first_refusal(results: Seq<Result<(), i32>>)
    requires
        results.len() >= DDC_ITERATIONS,
    ensures
        ({
            let (writes, refused) = repeat_run((0, None), results);
            &&& 1 <= writes <= DDC_ITERATIONS
            &&& forall|i: int| 0 <= i < writes - 1 ==> results[i] is Ok
            &&& refused matches Some(ret) ==> results[writes - 1] == Err::<(), i32>(ret)
            &&& refused is None ==> writes == DDC_ITERATIONS && results[writes - 1] is Ok
        }),
{
    reveal_with_fuel(repeat_run, 3);
    assert(results.drop_first()[0] == results[1]);
}

impl RepeatedWrite {
    pub closed spec fn writes_of(&self) -> nat {
        self.writes as nat
    }

    pub closed spec fn refused_of(&self) -> Option<i32> {
        self.refused
    }

    /// The well-formedness every repeated write keeps.
    pub open spec fn wf(&self) -> bool {
        repeat_wf(self.writes_of(), self.refused_of())
    }

    /// A repeated write that has made no write yet.
    pub fn new() -> (r: RepeatedWrite)
        ensures
            r.wf(),
            r.writes_of() == 0,
            r.refused_of() is None,
    {
        RepeatedWrite { writes: 0, refused: None }
    }

    /// Whether another write is due.
    pub fn wants_write(&self) -> (r: bool)
        requires
            self.wf(),
        ensures
            r == repeat_wants(self.writes_of(), self.refused_of()),
    {
        self.writes < DDC_ITERATIONS && self.refused.is_none()
    }

    /// Records the result of the write that was due.
    pub fn wrote(&mut self, result: Result<(), i32>)
        requires
            old(self).wf(),
            repeat_wants(old(self).writes_of(), old(self).refused_of()),
        ensures
            final(self).wf(),
            (final(self).writes_of(), final(self).refused_of()) == repeat_after(
                (old(self).writes_of(), old(self).refused_of()),
                result,
            ),
    {
        self.writes = self.writes + 1;
        self.refused = match result {
            Ok(()) => None,
            Err(ret) => Some(ret),
        };
    }

    /// What the whole write came to, once no write is due: the refused
    /// write's error, or `Ok` when every write went through.
    pub fn outcome(&self) -> (r: Result<(), DisplayError>)
        requires
            self.wf(),
            !repeat_wants(self.writes_of(), self.refused_of()),
        ensures
            match self.refused_of() {
                Some(ret) => r matches Err(e) && is_write_failure(e, ret),
                None => r is Ok && self.writes_of() == DDC_ITERATIONS,
            },
    {
        match self.refused {
            Some(ret) => Err(write_failure(ret)),
            None => Ok(()),
        }
    }
}

/// `e` is the error [`write_failure`] gives for `ret`.
pub open spec fn is_write_failure(e: DisplayError, ret: i32) -> bool {
    e matches DisplayError::Tool(m) && m@ == "IOAVServiceWriteI2C returned 0x"@ + hex8(ret as u32)
}

// ---------------------------------------------------------------------------
// Which display is which.
// ---------------------------------------------------------------------------

/// One node of interest seen while walking the platform's device registry,
/// in order.
#[derive(Debug, PartialEq)]
pub enum RegistryNode<P> {
    /// A framebuffer, with whatever its subtree said about it.
    Framebuffer { edid_uuid: Option<String>, name: Option<String> },
    /// A DDC proxy; only the external ones can carry DDC.
    Proxy { external: bool, payload: P },
}

/// A framebuffer that has both an identity and a proxy to write through.
#[derive(Debug, PartialEq)]
pub struct PairedDisplay<P> {
    pub edid_uuid: String,
    pub name: String,
    pub proxy: P,
}

/// The framebuffer still waiting for its proxy, and the displays paired so
/// far, after the nodes `nodes`.
///
/// A proxy belongs to the most recent framebuffer, so the first external one
/// after a framebuffer is that display's DDC channel, and it is taken: no
/// proxy serves two framebuffers. Framebuffers with no EDID UUID cannot be
/// named in the config and are dropped.
pub open spec fn pairing<P>(nodes: Seq<RegistryNode<P>>) -> (
    Option<(Option<Seq<char>>, Option<Seq<char>>)>,
    Seq<(Seq<char>, Seq<char>, P)>,
)
    decreases nodes.len(),
{
    if nodes.len() == 0 {
        (None, Seq::empty())
    } else {
        let (current, paired) = pairing(nodes.drop_last());
        match nodes.last() {
            RegistryNode::Framebuffer { edid_uuid, name } => (
                Some((opt_view(edid_uuid), opt_view(name))),
                paired,
            ),
            RegistryNode::Proxy { external, payload } => if !external {
                (current, paired)
            } else {
                match current {
                    None => (None, paired),
                    Some((uuid, name)) => (
                        None,
                        match uuid {
                            Some(u) => paired.push(
                                (
                                    u,
                                    match name {
                                        Some(n) => n,
                                        None => UNKNOWN_DISPLAY@,
                                    },
                                    payload,
                                ),
                            ),
                            None => paired,
                        },
                    ),
                }
            },
        }
    }
}

/// The paired displays, as text and payload.
pub open spec fn paired_view<P>(d: Seq<PairedDisplay<P>>) -> Seq<(Seq<char>, Seq<char>, P)> {
    Seq::new(d.len(), |i: int| (d[i].edid_uuid@, d[i].name@, d[i].proxy))
}

/// Pairs each framebuffer with the first external proxy that follows it.
pub fn pair_displays<P>(nodes: Vec<RegistryNode<P>>) -> (r: Vec<PairedDisplay<P>>)
    ensures
        paired_view(r@) == pairing(nodes@).1,
{
    let total = nodes.len();
    let ghost all = nodes@;
    let mut nodes = nodes;
    let mut paired: Vec<PairedDisplay<P>> = Vec::new();
    let mut current: Option<(Option<String>, Option<String>)> = None;
    let mut seen: usize = 0;
    while nodes.len() > 0
        invariant
            all.len() == total,
            seen + nodes@.len() == all.len(),
            nodes@ == all.skip(seen as int),
            paired_view(paired@) == pairing(all.take(seen as int)).1,
            (match current {
                Some((u, n)) => Some((opt_view(u), opt_view(n))),
                None => None,
            }) == pairing(all.take(seen as int)).0,
        decreases nodes@.len(),
    {
        let node = nodes.remove(0);
        assert(all.take(seen + 1).drop_last() =~= all.take(seen as int));
        assert(all.take(seen + 1).last() == node);
        assert(nodes@ =~= all.skip(seen + 1));
        let ghost before = paired@;
        match node {
            RegistryNode::Framebuffer { edid_uuid, name } => {
                current = Some((edid_uuid, name));
            },
            RegistryNode::Proxy { external, payload } => {
                if external {
                    // Taking it is what keeps a proxy to a single framebuffer.
                    let taken = current;
                    current = None;
                    match taken {
                        Some((Some(edid_uuid), name)) => {
                            let name = match name {
                                Some(n) => n,
                                None => UNKNOWN_DISPLAY.to_owned(),
                            };
                            paired.push(PairedDisplay { edid_uuid, name, proxy: payload });
                            assert(paired_view(paired@) =~= paired_view(before).push(
                                (paired@.last().edid_uuid@, paired@.last().name@, paired@.last().proxy),
                            ));
                        },
                        _ => {},
                    }
                }
            },
        }
        seen = seen + 1;
    }
    assert(all.take(seen as int) =~= all);
    paired
}

/// Display `i` is the first whose UUID matches `wanted`, ignoring ASCII case.
pub open spec fn first_uuid_match(uuids: Seq<Seq<char>>, wanted: Seq<char>, i: int) -> bool {
    &&& 0 <= i < uuids.len()
    &&& ascii_lower(uuids[i]) == ascii_lower(wanted)
    &&& forall|j: int| 0 <= j < i ==> ascii_lower(#[trigger] uuids[j]) != ascii_lower(wanted)
}

/// Which display to use: the configured one, or the first when none (or an
/// empty UUID) is configured. UUIDs are compared case-insensitively, since
/// the registry prints them upper case and a hand-edited config should not
/// fail over that.
pub open spec fn spec_pick(uuids: Seq<Seq<char>>, wanted: Option<Seq<char>>) -> Option<int> {
    let first = if uuids.len() > 0 {
        Some(0)
    } else {
        None
    };
    match wanted {
        Some(w) => if w.len() == 0 {
            first
        } else if exists|i: int| first_uuid_match(uuids, w, i) {
            Some(choose|i: int| first_uuid_match(uuids, w, i))
        } else {
            None
        },
        None => first,
    }
}

/// The UUIDs of `displays`, in order.
pub open spec fn uuids_of<P>(displays: Seq<PairedDisplay<P>>) -> Seq<Seq<char>> {
    Seq::new(displays.len(), |i: int| displays[i].edid_uuid@)
}

/// Picks the configured display, or the first one when none is configured.
pub fn pick<'a, P>(displays: &'a [PairedDisplay<P>], wanted: Option<&str>) -> (r: Result<
    &'a PairedDisplay<P>,
    DisplayError,
>)
    ensures
        match spec_pick(
            uuids_of(displays@),
            match wanted {
                Some(w) => Some(w@),
                None => None,
            },
        ) {
            Some(i) => r is Ok && *r->Ok_0 == displays@[i],
            None => r matches Err(DisplayError::Tool(m)) && m@ == "display not present"@,
        },
{
    let ghost uuids = uuids_of(displays@);
    let w = match wanted {
        Some(w) => w,
        None => {
            if displays.len() > 0 {
                return Ok(&displays[0]);
            }
            return Err(DisplayError::Tool("display not present".to_owned()));
        },
    };
    if w.is_empty() {
        if displays.len() > 0 {
            return Ok(&displays[0]);
        }
        return Err(DisplayError::Tool("display not present".to_owned()));
    }
    let target = chars_of(w);
    let mut i: usize = 0;
    while i < displays.len()
        invariant
            i <= displays@.len(),
            wanted == Some(w),
            target@ == w@,
            w@.len() > 0,
            uuids == uuids_of(displays@),
            forall|j: int| 0 <= j < i ==> ascii_lower(#[trigger] uuids[j]) != ascii_lower(w@),
        decreases displays@.len() - i,
    {
        let candidate = chars_of(displays[i].edid_uuid.as_str());
        assert(candidate@ == uuids[i as int]);
        if eq_ignore_ascii_case(&candidate, &target) {
            assert(first_uuid_match(uuids, w@, i as int));
            proof {
                let k = choose|k: int| first_uuid_match(uuids, w@, k);
                if k < i {
                    assert(ascii_lower(uuids[k]) != ascii_lower(w@));
                } else if k > i {
                    assert(ascii_lower(uuids[i as int]) != ascii_lower(w@));
                }
            }
            return Ok(&displays[i]);
        }
        i = i + 1;
    }
    assert forall|k: int| !#[trigger] first_uuid_match(uuids, w@, k) by {
        if 0 <= k < uuids.len() {
            assert(ascii_lower(uuids[k]) != ascii_lower(w@));
        }
    }
    Err(DisplayError::Tool("display not present".to_owned()))
}

} // verus!
