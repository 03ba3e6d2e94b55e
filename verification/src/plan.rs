//! Turning "switch to host N" into the concrete list of things to do.

use vstd::prelude::*;

use crate::config::{Config, DeviceConfig, DisplayConfig};
use crate::types::{DeviceId, HostIndex};

verus! {

/// Everything one switch touches, in execution order: displays first, then devices.
#[derive(Clone, Debug, PartialEq, Eq)]
pub struct SwitchPlan {
    pub target: HostIndex,
    /// Display name and the DDC input source to select on it.
    pub displays: Vec<(String, u8)>,
    pub devices: Vec<DeviceId>,
    /// True when a person asked for this switch (CLI, tray, hotkey); false for
    /// a switch the coordinator started on its own. The executor treats a
    /// device another host already took as a skip only on an automatic switch.
    pub manual: bool,
}

#[derive(Clone, Debug, PartialEq, Eq)]
pub enum PlanError {
    TargetNotDeclared(HostIndex),
    MissingInput { display: String, host: HostIndex },
}

/// Display `d` is the first one without an input for `target`.
pub open spec fn first_without_input(cfg: &Config, target: HostIndex, d: int) -> bool {
    &&& 0 <= d < cfg.displays@.len()
    &&& cfg.displays@[d].spec_input_for(target) is None
    &&& forall|e: int| 0 <= e < d ==> (#[trigger] cfg.displays@[e]).spec_input_for(target) is Some
}

/// The display steps of a switch to `target`, in configuration order.
pub open spec fn plan_displays(cfg: &Config, target: HostIndex) -> Seq<(String, u8)> {
    cfg.displays@.map_values(|d: DisplayConfig| (d.name, d.spec_input_for(target)->0))
}

/// Is this device moved by a switch? Every device on a manual one, only the
/// followers on an automatic one (the trigger already left on its own).
pub open spec fn moves(manual: bool, d: DeviceConfig) -> bool {
    manual || d.follow
}

/// The device steps of a switch, in configuration order.
pub open spec fn plan_devices(cfg: &Config, manual: bool) -> Seq<DeviceId> {
    cfg.devices@.filter(|d: DeviceConfig| moves(manual, d)).map_values(|d: DeviceConfig| d.id)
}

/// What `build_plan` answers.
pub open spec fn spec_build_plan(cfg: &Config, target: HostIndex, manual: bool) -> Result<
    (),
    PlanError,
> {
    if !cfg.declares(target) {
        Err(PlanError::TargetNotDeclared(target))
    } else if exists|d: int| first_without_input(cfg, target, d) {
        let d = choose|d: int| first_without_input(cfg, target, d);
        Err(PlanError::MissingInput { display: cfg.displays@[d].name, host: target })
    } else {
        Ok(())
    }
}

/// An input clash somewhere means there is a first one.
proof fn lemma_some_first_clash(cfg: &Config, d: int, h: int)
    requires
        0 <= d < cfg.displays@.len(),
        0 <= h < cfg.hosts@.len(),
        cfg.input_clash(d, h),
    ensures
        exists|e: int, g: int| cfg.first_input_clash(e, g),
    decreases d, h,
{
    if cfg.first_input_clash(d, h) {
    } else {
        let (e, g) = choose|e: int, g: int|
            0 <= e < cfg.displays@.len() && 0 <= g < cfg.hosts@.len() && (e < d || (e == d && g
                < h)) && #[trigger] cfg.input_clash(e, g);
        lemma_some_first_clash(cfg, e, g);
    }
}

/// A valid config can plan a switch to every host it declares: every display
/// has an input for it.
pub proof fn lemma_valid_config_plans_every_declared_host(cfg: &Config, target: HostIndex, manual: bool)
    requires
        cfg.valid(),
        cfg.declares(target),
    ensures
        spec_build_plan(cfg, target, manual) is Ok,
{
    if exists|d: int| first_without_input(cfg, target, d) {
        let d = choose|d: int| first_without_input(cfg, target, d);
        let h = choose|h: int| 0 <= h < cfg.hosts@.len() && #[trigger] cfg.hosts@[h].index == target;
        assert(cfg.input_at(d, h) is None);
        assert(cfg.input_clash(d, h));
        lemma_some_first_clash(cfg, d, h);
    }
}

/// Builds the plan for switching to `target`.
///
/// An automatic switch moves only the `follow` devices (the trigger keyboard
/// already left on its own); a manual one moves every configured device.
pub fn build_plan(cfg: &Config, target: HostIndex, manual: bool) -> (r: Result<SwitchPlan, PlanError>)
    ensures
        match spec_build_plan(cfg, target, manual) {
            Ok(()) => r matches Ok(plan) && plan.target == target && plan.manual == manual
                && plan.displays@ == plan_displays(cfg, target) && plan.devices@ == plan_devices(
                cfg,
                manual,
            ),
            Err(e) => r == Err::<SwitchPlan, PlanError>(e),
        },
{
    if !cfg.has_host(target) {
        return Err(PlanError::TargetNotDeclared(target));
    }

    let mut displays: Vec<(String, u8)> = Vec::new();
    let mut d: usize = 0;
    while d < cfg.displays.len()
        invariant
            d <= cfg.displays@.len(),
            cfg.declares(target),
            forall|e: int| 0 <= e < d ==> (#[trigger] cfg.displays@[e]).spec_input_for(target) is Some,
            displays@ == plan_displays(cfg, target).take(d as int),
        decreases cfg.displays@.len() - d,
    {
        let display = &cfg.displays[d];
        match display.input_for(target) {
            None => {
                proof {
                    assert(first_without_input(cfg, target, d as int));
                    let c = choose|c: int| first_without_input(cfg, target, c);
                    if c < d {
                        assert(cfg.displays@[c].spec_input_for(target) is Some);
                    } else if c > d {
                        assert(cfg.displays@[d as int].spec_input_for(target) is Some);
                    }
                }
                return Err(PlanError::MissingInput { display: display.name.clone(), host: target });
            },
            Some(input) => {
                let step = (display.name.clone(), input);
                displays.push(step);
                assert(plan_displays(cfg, target).take(d + 1) == plan_displays(cfg, target).take(
                    d as int,
                ).push(step));
            },
        }
        d = d + 1;
    }
    assert(plan_displays(cfg, target).take(cfg.displays@.len() as int) == plan_displays(
        cfg,
        target,
    ));
    assert forall|c: int| !first_without_input(cfg, target, c) by {
        if 0 <= c < cfg.displays@.len() {
            assert(cfg.displays@[c].spec_input_for(target) is Some);
        }
    }

    let ghost pred = |d: DeviceConfig| moves(manual, d);
    let ghost id_of = |d: DeviceConfig| d.id;
    let mut devices: Vec<DeviceId> = Vec::new();
    let mut i: usize = 0;
    while i < cfg.devices.len()
        invariant
            i <= cfg.devices@.len(),
            pred == (|d: DeviceConfig| moves(manual, d)),
            id_of == (|d: DeviceConfig| d.id),
            devices@ == cfg.devices@.take(i as int).filter(pred).map_values(id_of),
        decreases cfg.devices@.len() - i,
    {
        let device = &cfg.devices[i];
        proof {
            assert(cfg.devices@.take(i + 1) == cfg.devices@.take(i as int).push(*device));
            cfg.devices@.take(i as int).lemma_filter_push(*device, pred);
        }
        if manual || device.follow {
            let id = device.id.copied();
            devices.push(id);
            proof {
                let before = cfg.devices@.take(i as int).filter(pred);
                assert(id_of(*device) == id);
                let lhs = before.push(*device).map_values(id_of);
                let rhs = before.map_values(id_of).push(id);
                assert(lhs.len() == rhs.len());
                assert forall|k: int| 0 <= k < lhs.len() implies lhs[k] == rhs[k] by {
                    if k < before.len() {
                        assert(before.push(*device)[k] == before[k]);
                    } else {
                        assert(before.push(*device)[k] == *device);
                    }
                }
                assert(lhs =~= rhs);
            }
        }
        i = i + 1;
    }
    assert(cfg.devices@.take(cfg.devices@.len() as int) == cfg.devices@);

    Ok(SwitchPlan { target, displays, devices, manual })
}

/// Where a trigger device goes when it leaves: the only other host when
/// there is exactly one, else its configured `leave_to`, provided that is a
/// declared host other than this one.
pub open spec fn spec_target_for_leave(cfg: &Config, trigger: Seq<char>) -> Option<HostIndex> {
    if exists|k: int| cfg.only_other(cfg.this_host, k) {
        Some(cfg.hosts@[choose|k: int| cfg.only_other(cfg.this_host, k)].index)
    } else {
        match cfg.spec_device(trigger) {
            Some(d) => match d.leave_to {
                Some(to) => if to != cfg.this_host && cfg.declares(to) {
                    Some(to)
                } else {
                    None
                },
                None => None,
            },
            None => None,
        }
    }
}

/// Where to switch when `trigger` leaves this machine.
///
/// With two hosts the target is the other one; beyond that it must be spelled
/// out as the device's `leave_to` (config validation enforces this).
pub fn target_for_leave(cfg: &Config, trigger: &DeviceId) -> (r: Option<HostIndex>)
    ensures
        r == spec_target_for_leave(cfg, trigger@),
{
    let this_host = cfg.this_host;
    let mut first: Option<usize> = None;
    let mut ambiguous = false;
    let mut i: usize = 0;
    while i < cfg.hosts.len()
        invariant
            i <= cfg.hosts@.len(),
            this_host == cfg.this_host,
            !ambiguous ==> match first {
                None => forall|m: int| 0 <= m < i ==> !#[trigger] cfg.other_host(this_host, m),
                Some(k) => k < i && cfg.other_host(this_host, k as int) && forall|m: int|
                    0 <= m < i && #[trigger] cfg.other_host(this_host, m) ==> m == k,
            },
            ambiguous ==> forall|j: int| !#[trigger] cfg.only_other(this_host, j),
        decreases cfg.hosts@.len() - i,
    {
        if !ambiguous && cfg.hosts[i].index != this_host {
            if first.is_some() {
                proof {
                    let k = first->0;
                    assert(cfg.other_host(this_host, k as int));
                    assert(cfg.other_host(this_host, i as int));
                    assert forall|j: int| !cfg.only_other(this_host, j) by {
                        if cfg.only_other(this_host, j) {
                            assert(k == j);
                            assert(i == j);
                        }
                    }
                }
                ambiguous = true;
            } else {
                first = Some(i);
            }
        }
        i = i + 1;
    }
    if !ambiguous {
        match first {
            Some(k) => {
                proof {
                    assert(cfg.only_other(this_host, k as int));
                    let c = choose|c: int| cfg.only_other(this_host, c);
                    assert(cfg.other_host(this_host, k as int));
                    assert(c == k);
                }
                return Some(cfg.hosts[k].index);
            },
            None => {
                assert forall|j: int| !cfg.only_other(this_host, j) by {}
            },
        }
    }
    let device = match cfg.device(trigger) {
        Some(device) => device,
        None => return None,
    };
    match device.leave_to {
        Some(to) => {
            if to != this_host && cfg.has_host(to) {
                Some(to)
            } else {
                None
            }
        },
        None => None,
    }
}

/// The first host entry naming this machine.
pub open spec fn this_position(cfg: &Config, p: int) -> bool {
    &&& 0 <= p < cfg.hosts@.len()
    &&& cfg.hosts@[p].index == cfg.this_host
    &&& forall|q: int| 0 <= q < p ==> (#[trigger] cfg.hosts@[q]).index != cfg.this_host
}

/// The host after this one in the configured order, wrapping around; this
/// host itself when it is not among the declared ones.
pub open spec fn spec_next_host(cfg: &Config) -> HostIndex {
    if exists|p: int| this_position(cfg, p) {
        let p = choose|p: int| this_position(cfg, p);
        cfg.hosts@[(p + 1) % (cfg.hosts@.len() as int)].index
    } else {
        cfg.this_host
    }
}

/// The host after this one in the configured order, wrapping around.
pub fn next_host(cfg: &Config) -> (r: HostIndex)
    ensures
        r == spec_next_host(cfg),
{
    let mut p: usize = 0;
    while p < cfg.hosts.len()
        invariant
            p <= cfg.hosts@.len(),
            forall|q: int| 0 <= q < p ==> (#[trigger] cfg.hosts@[q]).index != cfg.this_host,
        decreases cfg.hosts@.len() - p,
    {
        if cfg.hosts[p].index == cfg.this_host {
            proof {
                assert(this_position(cfg, p as int));
                let c = choose|c: int| this_position(cfg, c);
                if c < p {
                    assert(cfg.hosts@[c].index != cfg.this_host);
                } else if c > p {
                    assert(cfg.hosts@[p as int].index != cfg.this_host);
                }
            }
            return cfg.hosts[(p + 1) % cfg.hosts.len()].index;
        }
        p = p + 1;
    }
    assert forall|c: int| !this_position(cfg, c) by {
        if 0 <= c < cfg.hosts@.len() {
            assert(cfg.hosts@[c].index != cfg.this_host);
        }
    }
    // An invalid config; callers validate first, so just stay put.
    cfg.this_host
}

/// The next host is the one listed right after this machine's entry,
/// wrapping around to the first: with this machine first listed at position
/// `p`, it is the index of entry `p + 1`, or of entry 0 after the last. The
/// positions in the list count, not the slot numbers.
pub proof fn lemma_next_host_is_the_following_entry(cfg: Config, p: int)
    requires
        0 <= p < cfg.hosts@.len(),
        cfg.hosts@[p].index == cfg.this_host,
        forall|q: int| 0 <= q < p ==> (#[trigger] cfg.hosts@[q]).index != cfg.this_host,
    ensures
        spec_next_host(&cfg) == if p + 1 < cfg.hosts@.len() {
            cfg.hosts@[p + 1].index
        } else {
            cfg.hosts@[0].index
        },
{
    assert(this_position(&cfg, p));
    let c = choose|c: int| this_position(&cfg, c);
    if c < p {
        assert(cfg.hosts@[c].index != cfg.this_host);
    } else if c > p {
        assert(cfg.hosts@[p].index != cfg.this_host);
    }
    assert(c == p);
    let n = cfg.hosts@.len() as int;
    if p + 1 < n {
        vstd::arithmetic::div_mod::lemma_small_mod((p + 1) as nat, n as nat);
    } else {
        vstd::arithmetic::div_mod::lemma_mod_self_0(n);
    }
}

/// Switching to the next host always leaves this machine when it is declared
/// among at least two hosts with distinct slots; a machine that is not
/// declared stays where it is.
pub proof fn lemma_next_host_leaves_this_host(cfg: Config)
    ensures
        (forall|q: int| 0 <= q < cfg.hosts@.len() ==> (#[trigger] cfg.hosts@[q]).index != cfg.this_host)
            ==> spec_next_host(&cfg) == cfg.this_host,
        ({
            &&& cfg.hosts@.len() >= 2
            &&& forall|i: int, j: int|
                0 <= i < j < cfg.hosts@.len() ==> #[trigger] cfg.hosts@[i].index != #[trigger] cfg.hosts@[j].index
            &&& exists|q: int| 0 <= q < cfg.hosts@.len() && #[trigger] cfg.hosts@[q].index == cfg.this_host
        }) ==> spec_next_host(&cfg) != cfg.this_host,
{
    if forall|q: int| 0 <= q < cfg.hosts@.len() ==> (#[trigger] cfg.hosts@[q]).index != cfg.this_host {
        assert forall|c: int| !this_position(&cfg, c) by {
            if 0 <= c < cfg.hosts@.len() {
                assert(cfg.hosts@[c].index != cfg.this_host);
            }
        }
    }
    if cfg.hosts@.len() >= 2 && (forall|i: int, j: int|
        0 <= i < j < cfg.hosts@.len() ==> #[trigger] cfg.hosts@[i].index != #[trigger] cfg.hosts@[j].index)
        && exists|q: int| 0 <= q < cfg.hosts@.len() && #[trigger] cfg.hosts@[q].index == cfg.this_host {
        let q = choose|q: int| 0 <= q < cfg.hosts@.len() && #[trigger] cfg.hosts@[q].index == cfg.this_host;
        assert forall|r: int| 0 <= r < q implies (#[trigger] cfg.hosts@[r]).index != cfg.this_host by {
            assert(cfg.hosts@[r].index != cfg.hosts@[q].index);
        }
        lemma_next_host_is_the_following_entry(cfg, q);
        if q + 1 < cfg.hosts@.len() {
            assert(cfg.hosts@[q].index != cfg.hosts@[q + 1].index);
        } else {
            assert(cfg.hosts@[0].index != cfg.hosts@[q].index);
        }
    }
}

} // verus!
