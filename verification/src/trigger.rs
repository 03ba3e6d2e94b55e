//! Where switches come from: HID presence.
//!
//! The platform side (the HID manager on its own run loop) reports raw node
//! events; this module is the pure half that turns them into the
//! [`TriggerEvent`]s the coordinator understands.

use vstd::prelude::*;

use crate::types::{spec_vid_pid, DeviceId, TriggerEvent};

verus! {

/// Why the HID watcher could not run.
#[derive(Debug)]
pub enum TriggerError {
    /// The watcher thread could not be started; the payload says why.
    Thread(String),
}

/// One HID node appearing or disappearing.
///
/// A node is a single HID device object; one Bluetooth keyboard publishes
/// several of them (keyboard, consumer control, vendor pages, ...), which is
/// why [`PresenceTracker`] exists.
#[derive(Clone, Debug, PartialEq, Eq)]
pub enum RawHidEvent {
    Added {
        /// The node's handle, stable between its matching and its removal.
        node: usize,
        vid: u16,
        pid: u16,
        product: String,
    },
    Removed { node: usize },
}

/// A live node and the `(vid, pid)` it belongs to.
pub type Node = (usize, (u16, u16));

/// A watched `(vid, pid)` and the device id it reports as.
pub type Watched = ((u16, u16), DeviceId);

/// How many of `nodes` belong to `key`.
pub open spec fn count_key(nodes: Seq<Node>, key: (u16, u16)) -> nat
    decreases nodes.len(),
{
    if nodes.len() == 0 {
        0
    } else {
        count_key(nodes.drop_last(), key) + if nodes.last().1 == key {
            1nat
        } else {
            0nat
        }
    }
}

/// No node handle occurs twice.
pub open spec fn unique_nodes(nodes: Seq<Node>) -> bool {
    forall|i: int, j: int| 0 <= i < j < nodes.len() ==> #[trigger] nodes[i].0 != #[trigger] nodes[j].0
}

/// The key recorded for `node`, if it is live.
pub open spec fn key_of(nodes: Seq<Node>, node: usize) -> Option<(u16, u16)> {
    if exists|i: int| 0 <= i < nodes.len() && #[trigger] nodes[i].0 == node {
        Some(nodes[choose|i: int| 0 <= i < nodes.len() && #[trigger] nodes[i].0 == node].1)
    } else {
        None
    }
}

/// The watched entries for `ids`, in order: the ids in `vid:pid` form, keyed
/// by it. Any other id can never match a node.
pub open spec fn watched_keys(ids: Seq<DeviceId>) -> Seq<Watched>
    decreases ids.len(),
{
    if ids.len() == 0 {
        Seq::empty()
    } else {
        let rest = watched_keys(ids.drop_last());
        match spec_vid_pid(ids.last()@) {
            Some(key) => rest.push((key, ids.last())),
            None => rest,
        }
    }
}

/// The device the first entry for `key` reports as.
pub open spec fn device_for_key(entries: Seq<Watched>, key: (u16, u16)) -> Option<DeviceId>
    decreases entries.len(),
{
    if entries.len() == 0 {
        None
    } else if entries[0].0 == key {
        Some(entries[0].1)
    } else {
        device_for_key(entries.drop_first(), key)
    }
}

pub proof fn lemma_count_push(nodes: Seq<Node>, n: Node, key: (u16, u16))
    ensures
        count_key(nodes.push(n), key) == count_key(nodes, key) + if n.1 == key {
            1nat
        } else {
            0nat
        },
{
    assert(nodes.push(n).drop_last() =~= nodes);
}

pub proof fn lemma_count_concat(a: Seq<Node>, b: Seq<Node>, key: (u16, u16))
    ensures
        count_key(a + b, key) == count_key(a, key) + count_key(b, key),
    decreases b.len(),
{
    if b.len() == 0 {
        assert(a + b =~= a);
    } else {
        lemma_count_concat(a, b.drop_last(), key);
        assert((a + b).drop_last() =~= a + b.drop_last());
    }
}

pub proof fn lemma_count_remove(nodes: Seq<Node>, i: int, key: (u16, u16))
    requires
        0 <= i < nodes.len(),
    ensures
        count_key(nodes, key) == count_key(nodes.remove(i), key) + if nodes[i].1 == key {
            1nat
        } else {
            0nat
        },
{
    let front = nodes.take(i);
    let back = nodes.skip(i + 1);
    assert(nodes.remove(i) =~= front + back);
    assert(nodes =~= front.push(nodes[i]) + back);
    lemma_count_concat(front, back, key);
    lemma_count_concat(front.push(nodes[i]), back, key);
    lemma_count_push(front, nodes[i], key);
}


/// With no node twice, the key of the node at `i` is what `key_of` finds.
pub proof fn lemma_key_at(nodes: Seq<Node>, i: int)
    requires
        unique_nodes(nodes),
        0 <= i < nodes.len(),
    ensures
        key_of(nodes, nodes[i].0) == Some(nodes[i].1),
{
    let node = nodes[i].0;
    assert(0 <= i < nodes.len() && nodes[i].0 == node);
    let j = choose|j: int| 0 <= j < nodes.len() && #[trigger] nodes[j].0 == node;
    if j != i {
        if j < i {
            assert(nodes[j].0 != nodes[i].0);
        } else {
            assert(nodes[i].0 != nodes[j].0);
        }
    }
}

/// Adding a node that is not live records it and changes nothing else.
pub proof fn lemma_key_of_push(nodes: Seq<Node>, x: Node)
    requires
        unique_nodes(nodes),
        key_of(nodes, x.0) is None,
    ensures
        unique_nodes(nodes.push(x)),
        forall|n: usize| #[trigger] key_of(nodes.push(x), n) == if n == x.0 {
            Some(x.1)
        } else {
            key_of(nodes, n)
        },
{
    let after = nodes.push(x);
    assert forall|i: int, j: int| 0 <= i < j < after.len() implies #[trigger] after[i].0
        != #[trigger] after[j].0 by {
        if j == nodes.len() {
            assert(nodes[i].0 == nodes[i].0);
        } else {
            assert(nodes[i].0 != nodes[j].0);
        }
    }
    assert forall|n: usize| #[trigger] key_of(after, n) == if n == x.0 {
        Some(x.1)
    } else {
        key_of(nodes, n)
    } by {
        if n == x.0 {
            lemma_key_at(after, nodes.len() as int);
        } else {
            if exists|i: int| 0 <= i < nodes.len() && #[trigger] nodes[i].0 == n {
                let i = choose|i: int| 0 <= i < nodes.len() && #[trigger] nodes[i].0 == n;
                lemma_key_at(nodes, i);
                lemma_key_at(after, i);
            } else {
                assert forall|i: int| 0 <= i < after.len() implies #[trigger] after[i].0 != n by {
                    if i < nodes.len() {
                        assert(nodes[i].0 != n);
                    }
                }
            }
        }
    }
}

/// Removing the live node at `i` forgets it and changes nothing else.
pub proof fn lemma_key_of_remove(nodes: Seq<Node>, i: int)
    requires
        unique_nodes(nodes),
        0 <= i < nodes.len(),
    ensures
        unique_nodes(nodes.remove(i)),
        forall|n: usize| #[trigger] key_of(nodes.remove(i), n) == if n == nodes[i].0 {
            None
        } else {
            key_of(nodes, n)
        },
{
    let after = nodes.remove(i);
    assert forall|a: int, b: int| 0 <= a < b < after.len() implies #[trigger] after[a].0
        != #[trigger] after[b].0 by {
        let a0 = if a < i { a } else { a + 1 };
        let b0 = if b < i { b } else { b + 1 };
        assert(after[a] == nodes[a0]);
        assert(after[b] == nodes[b0]);
        assert(nodes[a0].0 != nodes[b0].0);
    }
    assert forall|n: usize| #[trigger] key_of(after, n) == if n == nodes[i].0 {
        None
    } else {
        key_of(nodes, n)
    } by {
        if n == nodes[i].0 {
            assert forall|a: int| 0 <= a < after.len() implies #[trigger] after[a].0 != n by {
                let a0 = if a < i { a } else { a + 1 };
                assert(after[a] == nodes[a0]);
                if a0 < i {
                    assert(nodes[a0].0 != nodes[i].0);
                } else {
                    assert(nodes[i].0 != nodes[a0].0);
                }
            }
        } else if exists|j: int| 0 <= j < nodes.len() && #[trigger] nodes[j].0 == n {
            let j = choose|j: int| 0 <= j < nodes.len() && #[trigger] nodes[j].0 == n;
            lemma_key_at(nodes, j);
            let j1 = if j < i { j } else { j - 1 };
            assert(after[j1] == nodes[j]);
            lemma_key_at(after, j1);
        } else {
            assert forall|a: int| 0 <= a < after.len() implies #[trigger] after[a].0 != n by {
                let a0 = if a < i { a } else { a + 1 };
                assert(after[a] == nodes[a0]);
                assert(nodes[a0].0 != n);
            }
        }
    }
}

/// Folds the HID nodes of a configured device into one arrival and one
/// departure.
///
/// Only devices whose `vid:pid` is watched are *reported*, but presence is
/// remembered for every node on the bus: the watched list comes from the
/// config, and a config that arrives late (or a reload) must not leave the
/// tracker blind to devices that are already here.
pub struct PresenceTracker {
    /// `(vid, pid)` of every watched device, in configuration order.
    by_key: Vec<Watched>,
    /// Every live node and its `(vid, pid)`, watched or not; no node twice.
    nodes: Vec<Node>,
}

impl PresenceTracker {
    /// The watched entries, in configuration order.
    pub closed spec fn watched(&self) -> Seq<Watched> {
        self.by_key@
    }

    /// The live nodes and their keys.
    pub closed spec fn live_nodes(&self) -> Seq<Node> {
        self.nodes@
    }

    /// The tracker's invariant: no node is recorded twice.
    pub open spec fn wf(&self) -> bool {
        unique_nodes(self.live_nodes())
    }

    /// How many live nodes belong to `key`.
    pub open spec fn live(&self, key: (u16, u16)) -> nat {
        count_key(self.live_nodes(), key)
    }

    /// The key recorded for `node`, if it is live.
    pub open spec fn node_key(&self, node: usize) -> Option<(u16, u16)> {
        key_of(self.live_nodes(), node)
    }

    /// What `feed` reports for `ev`, from the state before it.
    pub open spec fn report(&self, ev: RawHidEvent) -> Option<TriggerEvent> {
        match ev {
            RawHidEvent::Added { node, vid, pid, .. } => {
                if self.node_key(node) is Some {
                    None
                } else {
                    match device_for_key(self.watched(), (vid, pid)) {
                        Some(id) => if self.live((vid, pid)) == 0 {
                            Some(TriggerEvent::DeviceArrived(id))
                        } else {
                            None
                        },
                        None => None,
                    }
                }
            },
            RawHidEvent::Removed { node } => match self.node_key(node) {
                Some(key) => match device_for_key(self.watched(), key) {
                    Some(id) => if self.live(key) == 1 {
                        Some(TriggerEvent::DeviceLeft(id))
                    } else {
                        None
                    },
                    None => None,
                },
                None => None,
            },
        }
    }

    /// What `feed` does to the live nodes: an unknown node is added, a live
    /// node removed; a repeated addition or an unknown removal changes nothing.
    pub open spec fn moved(&self, ev: RawHidEvent, after: &PresenceTracker) -> bool {
        match ev {
            RawHidEvent::Added { node, vid, pid, .. } => {
                &&& forall|n: usize| #[trigger] after.node_key(n) == if n == node
                    && self.node_key(node) is None {
                    Some((vid, pid))
                } else {
                    self.node_key(n)
                }
                &&& forall|k: (u16, u16)| #[trigger] after.live(k) == self.live(k) + if k == (
                    vid,
                    pid,
                ) && self.node_key(node) is None {
                    1nat
                } else {
                    0nat
                }
            },
            RawHidEvent::Removed { node } => {
                &&& forall|n: usize| #[trigger] after.node_key(n) == if n == node {
                    None
                } else {
                    self.node_key(n)
                }
                &&& forall|k: (u16, u16)| #[trigger] self.live(k) == after.live(k) + if self.node_key(
                    node,
                ) == Some(k) {
                    1nat
                } else {
                    0nat
                }
            },
        }
    }
}

/// The watched ids keyed by `vid:pid`; ids not in that form can never match.
fn keys(watched: Vec<DeviceId>) -> (r: Vec<Watched>)
    ensures
        r@ == watched_keys(watched@),
{
    let mut out: Vec<Watched> = Vec::new();
    let mut i: usize = 0;
    while i < watched.len()
        invariant
            i <= watched@.len(),
            out@ == watched_keys(watched@.take(i as int)),
        decreases watched@.len() - i,
    {
        assert(watched@.take(i + 1).drop_last() =~= watched@.take(i as int));
        assert(watched@.take(i + 1).last() == watched@[i as int]);
        match watched[i].vid_pid() {
            Some(key) => out.push((key, watched[i].copied())),
            None => {},
        }
        i = i + 1;
    }
    assert(watched@.take(watched@.len() as int) =~= watched@);
    out
}

impl PresenceTracker {
    /// A tracker that reports on `watched` and has seen no node yet.
    pub fn new(watched: Vec<DeviceId>) -> (r: PresenceTracker)
        ensures
            r.wf(),
            r.watched() == watched_keys(watched@),
            r.live_nodes() == Seq::<Node>::empty(),
    {
        PresenceTracker { by_key: keys(watched), nodes: Vec::new() }
    }

    /// Replaces the devices this tracker reports on, keeping every node it has
    /// already seen, so a reload never loses presence state.
    pub fn set_watched(&mut self, watched: Vec<DeviceId>)
        ensures
            final(self).watched() == watched_keys(watched@),
            final(self).live_nodes() == old(self).live_nodes(),
    {
        self.by_key = keys(watched);
    }

    /// The device the first watched entry for `key` reports as.
    fn device_for(&self, key: (u16, u16)) -> (r: Option<DeviceId>)
        ensures
            r == device_for_key(self.by_key@, key),
    {
        let mut i: usize = 0;
        assert(self.by_key@.subrange(0, self.by_key@.len() as int) == self.by_key@);
        while i < self.by_key.len()
            invariant
                i <= self.by_key@.len(),
                device_for_key(self.by_key@, key) == device_for_key(
                    self.by_key@.subrange(i as int, self.by_key@.len() as int),
                    key,
                ),
            decreases self.by_key@.len() - i,
        {
            let ghost rest = self.by_key@.subrange(i as int, self.by_key@.len() as int);
            assert(rest.drop_first() == self.by_key@.subrange(i + 1, self.by_key@.len() as int));
            if self.by_key[i].0.0 == key.0 && self.by_key[i].0.1 == key.1 {
                return Some(self.by_key[i].1.copied());
            }
            i = i + 1;
        }
        None
    }

    /// How many live nodes belong to `key`; only 0-1 crossings are events.
    fn count(&self, key: (u16, u16)) -> (r: usize)
        ensures
            r == self.live(key),
    {
        let mut c: usize = 0;
        let mut i: usize = 0;
        while i < self.nodes.len()
            invariant
                i <= self.nodes@.len(),
                c <= i,
                c == count_key(self.nodes@.take(i as int), key),
            decreases self.nodes@.len() - i,
        {
            assert(self.nodes@.take(i + 1).drop_last() =~= self.nodes@.take(i as int));
            if self.nodes[i].1.0 == key.0 && self.nodes[i].1.1 == key.1 {
                c = c + 1;
            }
            i = i + 1;
        }
        assert(self.nodes@.take(self.nodes@.len() as int) =~= self.nodes@);
        c
    }

    /// Where `node` is recorded, if it is live.
    fn position(&self, node: usize) -> (r: Option<usize>)
        ensures
            match r {
                Some(i) => i < self.nodes@.len() && self.nodes@[i as int].0 == node,
                None => forall|i: int| 0 <= i < self.nodes@.len() ==> #[trigger] self.nodes@[i].0 != node,
            },
    {
        let mut i: usize = 0;
        while i < self.nodes.len()
            invariant
                i <= self.nodes@.len(),
                forall|j: int| 0 <= j < i ==> #[trigger] self.nodes@[j].0 != node,
            decreases self.nodes@.len() - i,
        {
            if self.nodes[i].0 == node {
                return Some(i);
            }
            i = i + 1;
        }
        None
    }

    /// Applies one raw event, returning the trigger it caused, if any.
    pub fn feed(&mut self, ev: RawHidEvent) -> (r: Option<TriggerEvent>)
        requires
            old(self).wf(),
        ensures
            final(self).wf(),
            r == old(self).report(ev),
            old(self).moved(ev, final(self)),
            final(self).watched() == old(self).watched(),
    {
        match ev {
            RawHidEvent::Added { node, vid, pid, .. } => {
                match self.position(node) {
                    Some(i) => {
                        proof {
                            lemma_key_at(self.nodes@, i as int);
                        }
                        // The same node twice: nothing changed.
                        return None;
                    },
                    None => {},
                }
                let ghost before = self.nodes@;
                proof {
                    assert(key_of(before, node) is None);
                    lemma_key_of_push(before, (node, (vid, pid)));
                    assert forall|k: (u16, u16)| #[trigger] count_key(before.push((node, (vid, pid))), k)
                        == count_key(before, k) + if k == (vid, pid) {
                        1nat
                    } else {
                        0nat
                    } by {
                        lemma_count_push(before, (node, (vid, pid)), k);
                    }
                }
                self.nodes.push((node, (vid, pid)));
                match self.device_for((vid, pid)) {
                    Some(id) => if self.count((vid, pid)) == 1 {
                        Some(TriggerEvent::DeviceArrived(id))
                    } else {
                        None
                    },
                    None => None,
                }
            },
            RawHidEvent::Removed { node } => {
                let i = match self.position(node) {
                    Some(i) => i,
                    None => {
                        assert(key_of(self.nodes@, node) is None);
                        return None;
                    },
                };
                let ghost before = self.nodes@;
                proof {
                    lemma_key_at(before, i as int);
                    lemma_key_of_remove(before, i as int);
                    assert forall|k: (u16, u16)| #[trigger] count_key(before, k)
                        == count_key(before.remove(i as int), k) + if before[i as int].1 == k {
                        1nat
                    } else {
                        0nat
                    } by {
                        lemma_count_remove(before, i as int, k);
                    }
                }
                let (_, key) = self.nodes.remove(i);
                match self.device_for(key) {
                    Some(id) => if self.count(key) == 0 {
                        Some(TriggerEvent::DeviceLeft(id))
                    } else {
                        None
                    },
                    None => None,
                }
            },
        }
    }
}

/// A node that appears and then disappears again leaves the tracker where it
/// was: the same live nodes, the same count for every device. When it was the
/// device's only node and the device is watched, the pair is reported as one
/// arrival and one departure of that device.
pub proof fn lemma_add_then_remove_undoes(
    t0: PresenceTracker,
    t1: PresenceTracker,
    t2: PresenceTracker,
    node: usize,
    vid: u16,
    pid: u16,
    product: String,
)
    requires
        t0.node_key(node) is None,
        t0.moved(RawHidEvent::Added { node, vid, pid, product }, &t1),
        t1.moved(RawHidEvent::Removed { node }, &t2),
        t1.watched() == t0.watched(),
    ensures
        forall|n: usize| #[trigger] t2.node_key(n) == t0.node_key(n),
        forall|k: (u16, u16)| #[trigger] t2.live(k) == t0.live(k),
        t0.live((vid, pid)) == 0 && device_for_key(t0.watched(), (vid, pid)) is Some ==> {
            &&& t0.report(RawHidEvent::Added { node, vid, pid, product }) == Some(
                TriggerEvent::DeviceArrived(device_for_key(t0.watched(), (vid, pid))->0),
            )
            &&& t1.report(RawHidEvent::Removed { node }) == Some(
                TriggerEvent::DeviceLeft(device_for_key(t0.watched(), (vid, pid))->0),
            )
        },
{
    assert(t1.node_key(node) == Some((vid, pid)));
    assert forall|k: (u16, u16)| #[trigger] t2.live(k) == t0.live(k) by {
        assert(t1.live(k) == t0.live(k) + if k == (vid, pid) { 1nat } else { 0nat });
        assert(t1.live(k) == t2.live(k) + if t1.node_key(node) == Some(k) { 1nat } else { 0nat });
    }
    assert(t1.live((vid, pid)) == t0.live((vid, pid)) + 1);
}

/// Only the crossings between no node and one node are events: an arrival is
/// reported exactly when a watched device's first node appears, a departure
/// exactly when its last node goes.
pub proof fn lemma_events_are_crossings(t0: PresenceTracker, t1: PresenceTracker, ev: RawHidEvent)
    requires
        t0.moved(ev, &t1),
    ensures
        t0.report(ev) matches Some(TriggerEvent::DeviceArrived(id)) ==> {
            &&& ev matches RawHidEvent::Added { vid, pid, .. } && t0.live((vid, pid)) == 0
                && t1.live((vid, pid)) == 1 && device_for_key(t0.watched(), (vid, pid)) == Some(id)
        },
        t0.report(ev) matches Some(TriggerEvent::DeviceLeft(id)) ==> {
            &&& ev matches RawHidEvent::Removed { node } && t0.node_key(node) matches Some(k)
                && t0.live(k) == 1 && t1.live(k) == 0 && device_for_key(t0.watched(), k) == Some(id)
        },
        t0.report(ev) is None || t0.report(ev) matches Some(TriggerEvent::DeviceArrived(_))
            || t0.report(ev) matches Some(TriggerEvent::DeviceLeft(_)),
{
    match ev {
        RawHidEvent::Added { node, vid, pid, .. } => {
            assert(t1.live((vid, pid)) == t0.live((vid, pid)) + if t0.node_key(node) is None {
                1nat
            } else {
                0nat
            });
        },
        RawHidEvent::Removed { node } => {
            match t0.node_key(node) {
                Some(k) => {
                    assert(t0.live(k) == t1.live(k) + 1);
                },
                None => {},
            }
        },
    }
}

/// `ts` is what a tracker goes through while `evs` are fed to it one by one:
/// each event moves it from one tracker to the next, and the watched list
/// stays the same throughout.
pub open spec fn fed_trace(ts: Seq<PresenceTracker>, evs: Seq<RawHidEvent>) -> bool {
    &&& ts.len() == evs.len() + 1
    &&& forall|i: int| 0 <= i < evs.len() ==> #[trigger] ts[i].moved(evs[i], &ts[i + 1])
    &&& forall|i: int| 0 <= i < ts.len() ==> #[trigger] ts[i].watched() == ts[0].watched()
}

/// `ev` removes a live node of the device keyed `k` from `t`.
pub open spec fn removes_key(t: PresenceTracker, ev: RawHidEvent, k: (u16, u16)) -> bool {
    ev matches RawHidEvent::Removed { node } && t.node_key(node) == Some(k)
}

/// `ev` adds a node `t` did not know, of the device keyed `k`.
pub open spec fn adds_key(t: PresenceTracker, ev: RawHidEvent, k: (u16, u16)) -> bool {
    ev matches RawHidEvent::Added { node, vid, pid, .. } && (vid, pid) == k && t.node_key(node) is None
}

/// Feeding `ev` to `t` reported the arrival of the device keyed `k`.
pub open spec fn arrival_of(t: PresenceTracker, ev: RawHidEvent, k: (u16, u16)) -> bool {
    &&& t.report(ev) matches Some(TriggerEvent::DeviceArrived(_))
    &&& ev matches RawHidEvent::Added { vid, pid, .. } && (vid, pid) == k
}

/// Feeding `ev` to `t` reported the departure of the device keyed `k`.
pub open spec fn departure_of(t: PresenceTracker, ev: RawHidEvent, k: (u16, u16)) -> bool {
    &&& t.report(ev) matches Some(TriggerEvent::DeviceLeft(_))
    &&& removes_key(t, ev, k)
}

proof fn lemma_live_drops(ts: Seq<PresenceTracker>, evs: Seq<RawHidEvent>, k: (u16, u16), m: int, j: int)
    requires
        fed_trace(ts, evs),
        0 <= m < j < ts.len(),
        ts[m].live(k) >= 1,
        ts[j].live(k) == 0,
    ensures
        exists|l: int| m <= l < j && ts[l].live(k) == 1 && #[trigger] removes_key(ts[l], evs[l], k),
    decreases j - m,
{
    assert(ts[m].moved(evs[m], &ts[m + 1]));
    if ts[m + 1].live(k) == 0 {
        match evs[m] {
            RawHidEvent::Added { node, vid, pid, .. } => {
                assert(ts[m + 1].live(k) >= ts[m].live(k));
            },
            RawHidEvent::Removed { node } => {
                assert(ts[m].live(k) == ts[m + 1].live(k) + if ts[m].node_key(node) == Some(k) {
                    1nat
                } else {
                    0nat
                });
                assert(removes_key(ts[m], evs[m], k));
            },
        }
    } else {
        lemma_live_drops(ts, evs, k, m + 1, j);
    }
}

proof fn lemma_live_rises(ts: Seq<PresenceTracker>, evs: Seq<RawHidEvent>, k: (u16, u16), m: int, j: int)
    requires
        fed_trace(ts, evs),
        0 <= m < j < ts.len(),
        ts[m].live(k) == 0,
        ts[j].live(k) >= 1,
    ensures
        exists|l: int| m <= l < j && ts[l].live(k) == 0 && #[trigger] adds_key(ts[l], evs[l], k),
    decreases j - m,
{
    assert(ts[m].moved(evs[m], &ts[m + 1]));
    if ts[m + 1].live(k) >= 1 {
        match evs[m] {
            RawHidEvent::Added { node, vid, pid, .. } => {
                assert(ts[m + 1].live(k) == ts[m].live(k) + if k == (vid, pid) && ts[m].node_key(
                    node,
                ) is None {
                    1nat
                } else {
                    0nat
                });
                assert(adds_key(ts[m], evs[m], k));
            },
            RawHidEvent::Removed { node } => {
                assert(ts[m].live(k) == ts[m + 1].live(k) + if ts[m].node_key(node) == Some(k) {
                    1nat
                } else {
                    0nat
                });
            },
        }
    } else {
        lemma_live_rises(ts, evs, k, m + 1, j);
    }
}

/// Over any sequence of raw events, a watched device's arrivals and
/// departures alternate: between two reported arrivals of one device a
/// departure of it is reported, and between two reported departures an
/// arrival.
pub proof fn lemma_arrivals_and_departures_alternate(
    ts: Seq<PresenceTracker>,
    evs: Seq<RawHidEvent>,
    k: (u16, u16),
    i: int,
    j: int,
)
    requires
        fed_trace(ts, evs),
        0 <= i < j < evs.len(),
    ensures
        arrival_of(ts[i], evs[i], k) && arrival_of(ts[j], evs[j], k) ==> exists|l: int|
            i < l < j && #[trigger] departure_of(ts[l], evs[l], k),
        departure_of(ts[i], evs[i], k) && departure_of(ts[j], evs[j], k) ==> exists|l: int|
            i < l < j && #[trigger] arrival_of(ts[l], evs[l], k),
{
    assert(ts[i].moved(evs[i], &ts[i + 1]));
    assert(ts[j].moved(evs[j], &ts[j + 1]));
    assert(ts[i].watched() == ts[0].watched());
    if arrival_of(ts[i], evs[i], k) && arrival_of(ts[j], evs[j], k) {
        lemma_events_are_crossings(ts[i], ts[i + 1], evs[i]);
        lemma_events_are_crossings(ts[j], ts[j + 1], evs[j]);
        lemma_live_drops(ts, evs, k, i + 1, j);
        let l = choose|l: int|
            i + 1 <= l < j && ts[l].live(k) == 1 && #[trigger] removes_key(ts[l], evs[l], k);
        assert(ts[l].watched() == ts[0].watched());
        assert(departure_of(ts[l], evs[l], k));
    }
    if departure_of(ts[i], evs[i], k) && departure_of(ts[j], evs[j], k) {
        lemma_events_are_crossings(ts[i], ts[i + 1], evs[i]);
        lemma_events_are_crossings(ts[j], ts[j + 1], evs[j]);
        lemma_live_rises(ts, evs, k, i + 1, j);
        let l = choose|l: int|
            i + 1 <= l < j && ts[l].live(k) == 0 && #[trigger] adds_key(ts[l], evs[l], k);
        assert(ts[l].watched() == ts[0].watched());
        assert(arrival_of(ts[l], evs[l], k));
    }
}

// ---------------------------------------------------------------------------
// The raw device list.
// ---------------------------------------------------------------------------

/// One HID node on the bus: vendor id, product id and product name.
pub type NodeRow = (u16, u16, String);

/// The `(vid, pid)` a node row belongs to.
pub open spec fn row_key(row: NodeRow) -> (u16, u16) {
    (row.0, row.1)
}

/// `a` sorts before `b`: by vendor id, then by product id.
pub open spec fn key_before(a: (u16, u16), b: (u16, u16)) -> bool {
    a.0 < b.0 || (a.0 == b.0 && a.1 < b.1)
}

/// Row `i` is the first of `rows` with its `(vid, pid)`.
pub open spec fn first_of_key(rows: Seq<NodeRow>, i: int) -> bool {
    forall|j: int| 0 <= j < i ==> row_key(#[trigger] rows[j]) != row_key(rows[i])
}

/// Some row among the first `n` of `rows` has key `k`.
pub open spec fn key_among(rows: Seq<NodeRow>, n: int, k: (u16, u16)) -> bool {
    exists|i: int| 0 <= i < n && row_key(#[trigger] rows[i]) == k
}

/// `row` is, by key, name and all, the first row of its key among the first
/// `n` of `rows`.
pub open spec fn is_first_row(rows: Seq<NodeRow>, n: int, row: NodeRow) -> bool {
    exists|i: int| 0 <= i < n && first_of_key(rows, i) && #[trigger] rows[i] == row
}

/// One row per `(vid, pid)`, ascending by it: a device publishes several HID
/// nodes, and each is folded into the first one seen.
pub fn fold_hid_nodes(rows: &Vec<NodeRow>) -> (r: Vec<NodeRow>)
    ensures
        forall|i: int, j: int| 0 <= i < j < r@.len() ==> key_before(row_key(#[trigger] r@[i]), row_key(#[trigger] r@[j])),
        forall|k: (u16, u16)| key_among(r@, r@.len() as int, k) <==> key_among(rows@, rows@.len() as int, k),
        forall|j: int| 0 <= j < r@.len() ==> is_first_row(rows@, rows@.len() as int, #[trigger] r@[j]),
{
    let mut out: Vec<NodeRow> = Vec::new();
    let mut d: usize = 0;
    while d < rows.len()
        invariant
            d <= rows@.len(),
            forall|i: int, j: int| 0 <= i < j < out@.len() ==> key_before(row_key(#[trigger] out@[i]), row_key(#[trigger] out@[j])),
            forall|k: (u16, u16)| key_among(out@, out@.len() as int, k) <==> key_among(rows@, d as int, k),
            forall|j: int| 0 <= j < out@.len() ==> is_first_row(rows@, d as int, #[trigger] out@[j]),
        decreases rows@.len() - d,
    {
        let ghost before = out@;
        let vid = rows[d].0;
        let pid = rows[d].1;
        let ghost key = (vid, pid);
        assert(row_key(rows@[d as int]) == key);
        let mut k: usize = 0;
        while k < out.len() && (out[k].0 < vid || (out[k].0 == vid && out[k].1 < pid))
            invariant
                k <= out@.len(),
                out@ == before,
                key == (vid, pid),
                forall|i: int, j: int| 0 <= i < j < before.len() ==> key_before(row_key(#[trigger] before[i]), row_key(#[trigger] before[j])),
                forall|j: int| 0 <= j < k ==> key_before(row_key(#[trigger] out@[j]), key),
            decreases out@.len() - k,
        {
            k = k + 1;
        }
        // Every row from `k` on sorts after the new key or has it.
        assert forall|j: int| k <= j < before.len() implies !key_before(row_key(#[trigger] before[j]), key) by {
            if j > k {
                assert(key_before(row_key(before[k as int]), row_key(before[j])));
            }
        }
        if k < out.len() && out[k].0 == vid && out[k].1 == pid {
            // The key is listed already: its first row stays.
            assert(row_key(before[k as int]) == key);
            assert(key_among(before, before.len() as int, key));
            assert forall|kk: (u16, u16)| key_among(out@, out@.len() as int, kk) <==> key_among(rows@, d + 1, kk) by {
                if key_among(rows@, d + 1, kk) {
                    let i = choose|i: int| 0 <= i < d + 1 && row_key(#[trigger] rows@[i]) == kk;
                    if i < d {
                        assert(key_among(rows@, d as int, kk));
                    }
                }
            }
            assert forall|j: int| 0 <= j < out@.len() implies is_first_row(rows@, d + 1, #[trigger] out@[j]) by {
                assert(is_first_row(rows@, d as int, out@[j]));
                let i = choose|i: int| 0 <= i < d && first_of_key(rows@, i) && #[trigger] rows@[i] == out@[j];
                assert(0 <= i < d + 1 && first_of_key(rows@, i) && rows@[i] == out@[j]);
            }
        } else {
            // A key not seen before: this row is its first.
            assert(!key_among(before, before.len() as int, key)) by {
                if key_among(before, before.len() as int, key) {
                    let j = choose|j: int| 0 <= j < before.len() && row_key(#[trigger] before[j]) == key;
                    if j < k {
                        assert(key_before(row_key(before[j]), key));
                    } else if j > k {
                        assert(key_before(row_key(before[k as int]), row_key(before[j])));
                    }
                }
            }
            assert(!key_among(rows@, d as int, key));
            assert(first_of_key(rows@, d as int)) by {
                assert forall|j: int| 0 <= j < d implies row_key(#[trigger] rows@[j]) != row_key(rows@[d as int]) by {
                    if row_key(rows@[j]) == key {
                        assert(key_among(rows@, d as int, key));
                    }
                }
            }
            let row = (vid, pid, rows[d].2.clone());
            assert(row == rows@[d as int]);
            out.insert(k, row);
            assert(out@ == before.insert(k as int, row));
            assert forall|i: int, j: int| 0 <= i < j < out@.len() implies key_before(row_key(#[trigger] out@[i]), row_key(#[trigger] out@[j])) by {
                if j < k {
                    assert(out@[i] == before[i] && out@[j] == before[j]);
                } else if j == k {
                    assert(out@[i] == before[i]);
                } else if i < k {
                    assert(out@[i] == before[i] && out@[j] == before[j - 1]);
                    assert(key_before(row_key(before[i]), row_key(before[k as int])));
                } else if i == k {
                    assert(out@[j] == before[j - 1]);
                } else {
                    assert(out@[i] == before[i - 1] && out@[j] == before[j - 1]);
                }
            }
            assert forall|kk: (u16, u16)| key_among(out@, out@.len() as int, kk) <==> key_among(rows@, d + 1, kk) by {
                if key_among(out@, out@.len() as int, kk) {
                    let j = choose|j: int| 0 <= j < out@.len() && row_key(#[trigger] out@[j]) == kk;
                    if j < k {
                        assert(out@[j] == before[j]);
                        assert(key_among(before, before.len() as int, kk));
                    } else if j == k {
                        assert(row_key(rows@[d as int]) == kk);
                    } else {
                        assert(out@[j] == before[j - 1]);
                        assert(key_among(before, before.len() as int, kk));
                    }
                }
                if key_among(rows@, d + 1, kk) {
                    let i = choose|i: int| 0 <= i < d + 1 && row_key(#[trigger] rows@[i]) == kk;
                    if i < d {
                        assert(key_among(rows@, d as int, kk));
                        let j = choose|j: int| 0 <= j < before.len() && row_key(#[trigger] before[j]) == kk;
                        if j < k {
                            assert(out@[j] == before[j]);
                        } else {
                            assert(out@[j + 1] == before[j]);
                        }
                    } else {
                        assert(out@[k as int] == row);
                    }
                }
            }
            assert forall|j: int| 0 <= j < out@.len() implies is_first_row(rows@, d + 1, #[trigger] out@[j]) by {
                if j == k {
                    assert(0 <= d < d + 1 && first_of_key(rows@, d as int) && rows@[d as int] == out@[j]);
                } else {
                    let b = if j < k { j } else { j - 1 };
                    assert(out@[j] == before[b]);
                    assert(is_first_row(rows@, d as int, before[b]));
                    let i = choose|i: int| 0 <= i < d && first_of_key(rows@, i) && #[trigger] rows@[i] == before[b];
                    assert(0 <= i < d + 1 && first_of_key(rows@, i) && rows@[i] == out@[j]);
                }
            }
        }
        d = d + 1;
    }
    out
}

} // verus!
