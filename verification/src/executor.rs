//! Running a [`SwitchPlan`](crate::plan::SwitchPlan) against the device and
//! display layers: what each step concludes from what the hardware said.
//!
//! Order is fixed: displays first, then devices. Nothing here decides
//! *whether* to switch — that is the coordinator's job — and no step aborts
//! the rest of the plan: a screen that refuses to change input must not strand
//! the keyboard on this machine. The platform layer performs the calls and
//! hands each answer to the functions below.

use vstd::prelude::*;

use crate::device::{device_error_text, DeviceError};
use crate::display::{display_error_text, DisplayError};
use crate::text::{concat, decimal, decimal_text};
use crate::plan::SwitchPlan;
use crate::types::{DeviceId, HostIndex, HostInfo};

verus! {

/// One thing the plan asked for and how it went.
#[derive(Clone, Debug)]
pub struct StepResult {
    pub what: String,
    pub ok: bool,
    pub detail: String,
    pub ms: u64,
}

#[derive(Clone, Debug)]
pub struct SwitchReport {
    pub target: HostIndex,
    pub steps: Vec<StepResult>,
    /// True when every step succeeded.
    pub ok: bool,
}

/// Every step of `steps` succeeded.
pub open spec fn all_ok(steps: Seq<StepResult>) -> bool {
    forall|i: int| 0 <= i < steps.len() ==> #[trigger] steps[i].ok
}

impl SwitchReport {
    /// The report of a run towards `target` that produced `steps`, in order.
    pub fn from_steps(target: HostIndex, steps: Vec<StepResult>) -> (r: SwitchReport)
        ensures
            r.target == target,
            r.steps@ == steps@,
            r.ok == all_ok(steps@),
    {
        let mut ok = true;
        let mut i: usize = 0;
        while i < steps.len()
            invariant
                i <= steps@.len(),
                ok == (forall|j: int| 0 <= j < i ==> #[trigger] steps@[j].ok),
            decreases steps@.len() - i,
        {
            if !steps[i].ok {
                ok = false;
            }
            i = i + 1;
        }
        SwitchReport { target, steps, ok }
    }
}

/// Turns one step's outcome into a [`StepResult`].
pub fn finish(what: String, ms: u64, outcome: Result<String, String>) -> (r: StepResult)
    ensures
        r.what@ == what@,
        r.ms == ms,
        r.ok == outcome is Ok,
        r.detail@ == match outcome {
            Ok(d) => d@,
            Err(d) => d@,
        },
{
    let (ok, detail) = match outcome {
        Ok(detail) => (true, detail),
        Err(detail) => (false, detail),
    };
    StepResult { what, ok, detail, ms }
}

/// How many times one display input is attempted: the first attempt plus the
/// configured retries, so three retries mean four attempts.
pub fn ddc_attempts(retries: u32) -> (r: u32)
    ensures
        r == if retries == u32::MAX {
            u32::MAX
        } else {
            (retries + 1) as u32
        },
{
    retries.saturating_add(1)
}

/// The pause before attempt number `attempt` (counted from 0) of a display
/// write: 0.5 s, then 1 s, then 2 s for every later one.
pub open spec fn spec_ddc_backoff_ms(attempt: u32) -> u64 {
    if attempt <= 1 {
        500
    } else if attempt == 2 {
        1000
    } else {
        2000
    }
}

pub fn ddc_backoff_ms(attempt: u32) -> (r: u64)
    requires
        attempt >= 1,
    ensures
        r == spec_ddc_backoff_ms(attempt),
{
    if attempt <= 1 {
        500
    } else if attempt == 2 {
        1000
    } else {
        2000
    }
}

/// The label of the step for display `name`.
pub fn display_what(name: &str) -> (r: String)
    ensures
        r@ == "display "@ + name@,
{
    concat("display ", name)
}

/// The label of the step for a device, by its name or, when the core does not
/// know it, by its id.
pub fn device_what(name: &str) -> (r: String)
    ensures
        r@ == "device "@ + name@,
{
    concat("device ", name)
}

/// What a display step reports: the input it set, or why it could not.
/// `None` means the core has no display by the name the plan gives.
pub open spec fn spec_display_outcome(input: u8, result: Option<Result<(), DisplayError>>) -> Result<Seq<char>, Seq<char>> {
    match result {
        None => Err("display not found"@),
        Some(Ok(())) => Ok("input "@ + decimal(input as nat)),
        Some(Err(e)) => Err(display_error_text(&e)),
    }
}

pub fn display_outcome(input: u8, result: Option<Result<(), DisplayError>>) -> (r: Result<String, String>)
    ensures
        match (r, spec_display_outcome(input, result)) {
            (Ok(a), Ok(b)) => a@ == b,
            (Err(a), Err(b)) => a@ == b,
            _ => false,
        },
{
    match result {
        None => Err("display not found".to_owned()),
        Some(Ok(())) => {
            let n = decimal_text(input as u64);
            Ok(concat("input ", n.as_str()))
        },
        Some(Err(e)) => Err(e.message()),
    }
}

/// What to do with a device once its host slots have been read.
#[derive(Debug)]
pub enum DeviceStep {
    /// The step is over: nothing more is sent to the device.
    Done(Result<String, String>),
    /// Send the host change.
    Switch,
}

/// What a device step does given what reading its host slots returned.
///
/// - Already at the target: another host may have moved it, or the user
///   pressed Easy-Switch by hand; nothing to send.
/// - Not found on an automatic switch: the other host already took it, which
///   is the normal outcome, not a failure.
/// - Any other failed read: without a reading we do not know the device is
///   here and paired, so no host change is sent blind.
/// - A target past the device's last slot is undeclared and may be unpaired,
///   so it is never sent.
pub open spec fn spec_device_step(target: HostIndex, manual: bool, info: Result<HostInfo, DeviceError>) -> Option<Result<Seq<char>, Seq<char>>> {
    match info {
        Ok(i) => if i.current == target {
            Some(Ok("already at target"@))
        } else if target >= i.count {
            Some(Err("target "@ + decimal(target as nat) + " is beyond the device's "@ + decimal(i.count as nat) + " hosts"@))
        } else {
            None
        },
        Err(DeviceError::NotFound) => if !manual {
            Some(Ok("not on this Mac, skipped"@))
        } else {
            Some(Err("device not present"@))
        },
        Err(e) => Some(Err(device_error_text(&e))),
    }
}

pub fn device_step(target: HostIndex, manual: bool, info: &Result<HostInfo, DeviceError>) -> (r: DeviceStep)
    ensures
        match (r, spec_device_step(target, manual, *info)) {
            (DeviceStep::Switch, None) => true,
            (DeviceStep::Done(Ok(a)), Some(Ok(b))) => a@ == b,
            (DeviceStep::Done(Err(a)), Some(Err(b))) => a@ == b,
            _ => false,
        },
{
    match info {
        Ok(i) => {
            if i.current == target {
                DeviceStep::Done(Ok("already at target".to_owned()))
            } else if target >= i.count {
                let t = decimal_text(target as u64);
                let c = decimal_text(i.count as u64);
                let a = concat("target ", t.as_str());
                let b = concat(a.as_str(), " is beyond the device's ");
                let d = concat(b.as_str(), c.as_str());
                let m = concat(d.as_str(), " hosts");
                DeviceStep::Done(Err(m))
            } else {
                DeviceStep::Switch
            }
        },
        Err(DeviceError::NotFound) => if !manual {
            DeviceStep::Done(Ok("not on this Mac, skipped".to_owned()))
        } else {
            DeviceStep::Done(Err("device not present".to_owned()))
        },
        Err(e) => DeviceStep::Done(Err(e.message())),
    }
}

/// A host change is only ever sent to a device whose slots were read, that is
/// not on the target already, and that has a slot for the target.
pub proof fn lemma_switch_only_to_a_known_slot(target: HostIndex, manual: bool, info: Result<HostInfo, DeviceError>)
    requires
        spec_device_step(target, manual, info) is None,
    ensures
        info matches Ok(i) && i.current != target && target < i.count,
{
}

/// What the host change itself reports.
pub open spec fn spec_switch_outcome(target: HostIndex, result: Result<(), DeviceError>) -> Result<Seq<char>, Seq<char>> {
    match result {
        Ok(()) => Ok("switched to host "@ + decimal(target as nat)),
        Err(e) => Err(device_error_text(&e)),
    }
}

pub fn switch_outcome(target: HostIndex, result: &Result<(), DeviceError>) -> (r: Result<String, String>)
    ensures
        match (r, spec_switch_outcome(target, *result)) {
            (Ok(a), Ok(b)) => a@ == b,
            (Err(a), Err(b)) => a@ == b,
            _ => false,
        },
{
    match result {
        Ok(()) => {
            let n = decimal_text(target as u64);
            Ok(concat("switched to host ", n.as_str()))
        },
        Err(e) => Err(e.message()),
    }
}

// ---------------------------------------------------------------------------
// The run of one plan, call by call.
// ---------------------------------------------------------------------------

/// What the run asks the platform layer to do next.
#[derive(Clone, Copy, Debug, PartialEq, Eq)]
pub enum Call {
    /// Wait `pause_ms`, then write input `code` through display adapter
    /// `display`, and hand the answer to [`PlanRun::display_answered`].
    SetInput { display: usize, code: u8, pause_ms: u64 },
    /// Read the host slots of device adapter `device`, and hand the answer to
    /// [`PlanRun::hosts_read`].
    ReadHosts { device: usize },
    /// Send device adapter `device` to host `target`, and hand the answer to
    /// [`PlanRun::switched`].
    SwitchHost { device: usize, target: HostIndex },
    /// Every step is recorded: the report is ready.
    Finished,
}

/// Where a run stands. The step under way is always the one after the steps
/// recorded so far.
#[derive(Clone, Copy, Debug, PartialEq, Eq)]
pub enum Stage {
    /// Not started.
    Ready,
    /// Writing the step's display through adapter `adapter`; `attempt` writes
    /// have gone out since `started`.
    Display { adapter: usize, attempt: u32, started: u64 },
    /// Reading the host slots of the step's device through adapter `adapter`.
    Reading { adapter: usize, started: u64 },
    /// The step's device has been sent its host change.
    Switching { adapter: usize, started: u64 },
    /// Every step is recorded.
    Finished,
}

/// The run of one plan against the displays and devices the core has,
/// driven by the platform layer: it makes each [`Call`] and hands the answer
/// back. Displays come first, then devices; each display write is retried
/// with backoff; every entry of the plan ends as exactly one step, whatever
/// happened to the others.
pub struct PlanRun {
    plan: SwitchPlan,
    /// The names of the display adapters, in the core's order.
    displays: Vec<String>,
    /// The id and name of each device adapter, in the core's order.
    devices: Vec<(DeviceId, String)>,
    /// How many writes one display gets.
    attempts: u32,
    steps: Vec<StepResult>,
    stage: Stage,
}

/// `a` is the first of `names` equal to `name`.
pub open spec fn first_match(names: Seq<Seq<char>>, name: Seq<char>, a: int) -> bool {
    &&& 0 <= a < names.len()
    &&& names[a] == name
    &&& forall|b: int| 0 <= b < a ==> names[b] != name
}

/// The texts of `v`, in order.
pub open spec fn texts_of(v: Seq<String>) -> Seq<Seq<char>> {
    Seq::new(v.len(), |i: int| v[i]@)
}

/// The ids of the device adapters `v`, in order.
pub open spec fn ids_of(v: Seq<(DeviceId, String)>) -> Seq<Seq<char>> {
    Seq::new(v.len(), |i: int| v[i].0@)
}

/// The names of the device adapters `v`, in order.
pub open spec fn names_of(v: Seq<(DeviceId, String)>) -> Seq<Seq<char>> {
    Seq::new(v.len(), |i: int| v[i].1@)
}

/// Adapter `a` is the one entry `k` of `plan` runs through, among display
/// adapters named `names` and device adapters with ids `ids`: the first
/// display of the entry's name, or the first device of its id.
pub open spec fn entry_adapter(plan: SwitchPlan, names: Seq<Seq<char>>, ids: Seq<Seq<char>>, k: int, a: int) -> bool {
    let nd = plan.displays@.len() as int;
    if k < nd {
        first_match(names, plan.displays@[k].0@, a)
    } else {
        first_match(ids, plan.devices@[k - nd]@, a)
    }
}

/// Some adapter runs entry `k` of `plan`.
pub open spec fn entry_has_adapter(plan: SwitchPlan, names: Seq<Seq<char>>, ids: Seq<Seq<char>>, k: int) -> bool {
    exists|a: int| #[trigger] entry_adapter(plan, names, ids, k, a)
}

/// A step as text: what, whether it succeeded, the detail, and how long it
/// took.
pub open spec fn step_view(s: StepResult) -> (Seq<char>, bool, Seq<char>, u64) {
    (s.what@, s.ok, s.detail@, s.ms)
}

/// The step `what` that ended with `outcome` after `ms` milliseconds.
pub open spec fn outcome_view(what: Seq<char>, outcome: Result<Seq<char>, Seq<char>>, ms: u64) -> (Seq<char>, bool, Seq<char>, u64) {
    match outcome {
        Ok(d) => (what, true, d, ms),
        Err(d) => (what, false, d, ms),
    }
}

/// Milliseconds from `started` to `now` on the caller's clock.
pub open spec fn elapsed(started: u64, now: u64) -> u64 {
    if now >= started {
        (now - started) as u64
    } else {
        0
    }
}

/// How many writes a display gets for `retries` configured retries.
pub open spec fn spec_attempts(retries: u32) -> u32 {
    if retries == u32::MAX {
        u32::MAX
    } else {
        (retries + 1) as u32
    }
}

impl PlanRun {
    pub closed spec fn plan_of(&self) -> SwitchPlan {
        self.plan
    }

    pub closed spec fn display_names(&self) -> Seq<Seq<char>> {
        texts_of(self.displays@)
    }

    pub closed spec fn device_ids(&self) -> Seq<Seq<char>> {
        ids_of(self.devices@)
    }

    pub closed spec fn device_names(&self) -> Seq<Seq<char>> {
        names_of(self.devices@)
    }

    pub closed spec fn attempts(&self) -> u32 {
        self.attempts
    }

    pub closed spec fn steps(&self) -> Seq<StepResult> {
        self.steps@
    }

    pub closed spec fn stage(&self) -> Stage {
        self.stage
    }

    /// How many display entries the plan has.
    pub open spec fn nd(&self) -> int {
        self.plan_of().displays@.len() as int
    }

    /// How many entries the plan has in all.
    pub open spec fn total(&self) -> int {
        self.nd() + self.plan_of().devices@.len()
    }

    /// Adapter `a` is the one the plan's entry `k` runs through.
    pub open spec fn is_adapter_of(&self, k: int, a: int) -> bool {
        entry_adapter(self.plan_of(), self.display_names(), self.device_ids(), k, a)
    }

    /// The core has an adapter for the plan's entry `k`.
    pub open spec fn has_adapter(&self, k: int) -> bool {
        entry_has_adapter(self.plan_of(), self.display_names(), self.device_ids(), k)
    }

    /// The step recorded for the plan's entry `k` when the core has no
    /// adapter for it.
    pub open spec fn missing_view(&self, k: int) -> (Seq<char>, bool, Seq<char>, u64) {
        if k < self.nd() {
            ("display "@ + self.plan_of().displays@[k].0@, false, "display not found"@, 0)
        } else {
            ("device "@ + self.plan_of().devices@[k - self.nd()]@, false, "device not found"@, 0)
        }
    }

    /// The run is consistent: the stage is about the step after the ones
    /// recorded, through that entry's adapter, and a display has not been
    /// written more often than it may be.
    pub open spec fn wf(&self) -> bool {
        &&& self.attempts() >= 1
        &&& self.steps().len() <= self.total()
        &&& match self.stage() {
            Stage::Ready => self.steps().len() == 0,
            Stage::Display { adapter, attempt, .. } => {
                &&& self.steps().len() < self.nd()
                &&& self.is_adapter_of(self.steps().len() as int, adapter as int)
                &&& 1 <= attempt <= self.attempts()
            },
            Stage::Reading { adapter, .. } | Stage::Switching { adapter, .. } => {
                &&& self.nd() <= self.steps().len() < self.total()
                &&& self.is_adapter_of(self.steps().len() as int, adapter as int)
            },
            Stage::Finished => self.steps().len() == self.total(),
        }
    }

    /// The run is the same plan against the same adapters as `other`.
    pub open spec fn same_run(&self, other: &PlanRun) -> bool {
        &&& self.plan_of() == other.plan_of()
        &&& self.display_names() == other.display_names()
        &&& self.device_ids() == other.device_ids()
        &&& self.device_names() == other.device_names()
        &&& self.attempts() == other.attempts()
    }

    /// Having recorded the steps `from`, the run moved on at `now`: every
    /// entry without an adapter got its failed step, and `call` starts the
    /// next entry that has one, or says the run is finished.
    pub open spec fn moved_on(&self, from: Seq<StepResult>, now: u64, call: Call) -> bool {
        let s = self.steps();
        &&& from.len() <= s.len() <= self.total()
        &&& s.subrange(0, from.len() as int) == from
        &&& forall|k: int| from.len() <= k < s.len() ==> !#[trigger] entry_has_adapter(self.plan_of(), self.display_names(), self.device_ids(), k)
        &&& forall|k: int| from.len() <= k < s.len() ==> step_view(#[trigger] s[k]) == self.missing_view(k)
        &&& if s.len() < self.nd() {
            &&& self.stage() matches Stage::Display { adapter, attempt, started } && attempt == 1 && started == now
                && self.is_adapter_of(s.len() as int, adapter as int)
            &&& call == Call::SetInput {
                display: self.stage()->Display_adapter,
                code: self.plan_of().displays@[s.len() as int].1,
                pause_ms: 0,
            }
        } else if s.len() < self.total() {
            &&& self.stage() matches Stage::Reading { adapter, started } && started == now
                && self.is_adapter_of(s.len() as int, adapter as int)
            &&& call == Call::ReadHosts { device: self.stage()->Reading_adapter }
        } else {
            &&& self.stage() is Finished
            &&& call is Finished
        }
    }

    /// `after` is where the run stands once the step's display answered
    /// `result` to a write at `now`, the run asking for `r` next.
    pub open spec fn display_answer(&self, after: PlanRun, result: Result<(), DisplayError>, now: u64, r: Call) -> bool {
        &&& after.wf()
        &&& after.same_run(self)
        &&& {
            let k = self.steps().len() as int;
            let (adapter, attempt, started) = (
                self.stage()->Display_adapter,
                self.stage()->Display_attempt,
                self.stage()->Display_started,
            );
            let (name, code) = (self.plan_of().displays@[k].0@, self.plan_of().displays@[k].1);
            if result is Err && attempt < self.attempts() {
                &&& after.steps() == self.steps()
                &&& after.stage() == (Stage::Display { adapter, attempt: (attempt + 1) as u32, started })
                &&& r == (Call::SetInput { display: adapter, code, pause_ms: spec_ddc_backoff_ms(attempt) })
            } else {
                &&& after.steps().len() > k
                &&& after.steps().subrange(0, k) == self.steps()
                &&& step_view(after.steps()[k]) == outcome_view(
                    "display "@ + name,
                    spec_display_outcome(code, Some(result)),
                    elapsed(started, now),
                )
                &&& after.moved_on(after.steps().subrange(0, k + 1), now, r)
            }
        }
    }

    /// `after` is where the run stands once the step's device answered the
    /// host slot read with `info` at `now`, the run asking for `r` next.
    pub open spec fn hosts_answer(&self, after: PlanRun, info: Result<HostInfo, DeviceError>, now: u64, r: Call) -> bool {
        &&& after.wf()
        &&& after.same_run(self)
        &&& {
            let k = self.steps().len() as int;
            let (adapter, started) = (self.stage()->Reading_adapter, self.stage()->Reading_started);
            let plan = self.plan_of();
            match spec_device_step(plan.target, plan.manual, info) {
                None => {
                    &&& after.steps() == self.steps()
                    &&& after.stage() == (Stage::Switching { adapter, started })
                    &&& r == (Call::SwitchHost { device: adapter, target: plan.target })
                },
                Some(outcome) => {
                    &&& after.steps().len() > k
                    &&& after.steps().subrange(0, k) == self.steps()
                    &&& step_view(after.steps()[k]) == outcome_view(
                        "device "@ + self.device_names()[adapter as int],
                        outcome,
                        elapsed(started, now),
                    )
                    &&& after.moved_on(after.steps().subrange(0, k + 1), now, r)
                },
            }
        }
    }

    /// `after` is where the run stands once the step's device answered the
    /// host change with `result` at `now`, the run asking for `r` next.
    pub open spec fn switch_answer(&self, after: PlanRun, result: Result<(), DeviceError>, now: u64, r: Call) -> bool {
        &&& after.wf()
        &&& after.same_run(self)
        &&& {
            let k = self.steps().len() as int;
            let (adapter, started) = (self.stage()->Switching_adapter, self.stage()->Switching_started);
            &&& after.steps().len() > k
            &&& after.steps().subrange(0, k) == self.steps()
            &&& step_view(after.steps()[k]) == outcome_view(
                "device "@ + self.device_names()[adapter as int],
                spec_switch_outcome(self.plan_of().target, result),
                elapsed(started, now),
            )
            &&& after.moved_on(after.steps().subrange(0, k + 1), now, r)
        }
    }

    /// A run of `plan` against display adapters named `displays` and device
    /// adapters `devices` (id and name), with `retries` retries per display.
    pub fn new(plan: SwitchPlan, displays: Vec<String>, devices: Vec<(DeviceId, String)>, retries: u32) -> (r: PlanRun)
        ensures
            r.wf(),
            r.plan_of() == plan,
            r.display_names() == texts_of(displays@),
            r.device_ids() == ids_of(devices@),
            r.device_names() == names_of(devices@),
            r.attempts() == spec_attempts(retries),
            r.steps() == Seq::<StepResult>::empty(),
            r.stage() is Ready,
    {
        PlanRun { plan, displays, devices, attempts: ddc_attempts(retries), steps: Vec::new(), stage: Stage::Ready }
    }

    /// The first display adapter named `name`.
    fn display_adapter(&self, k: usize) -> (r: Option<usize>)
        requires
            k < self.plan.displays@.len(),
        ensures
            match r {
                Some(a) => first_match(self.display_names(), self.plan.displays@[k as int].0@, a as int),
                None => !self.has_adapter(k as int),
            },
    {
        let name = self.plan.displays[k].0.as_str();
        let mut a: usize = 0;
        while a < self.displays.len()
            invariant
                a <= self.displays@.len(),
                k < self.plan.displays@.len(),
                name@ == self.plan.displays@[k as int].0@,
                forall|b: int| 0 <= b < a ==> self.display_names()[b] != name@,
            decreases self.displays@.len() - a,
        {
            if crate::text::str_eq(self.displays[a].as_str(), name) {
                return Some(a);
            }
            a = a + 1;
        }
        assert(!self.has_adapter(k as int)) by {
            if self.has_adapter(k as int) {
                let w = choose|w: int| #[trigger] entry_adapter(self.plan_of(), self.display_names(), self.device_ids(), k as int, w);
                assert(self.display_names()[w] == name@);
            }
        }
        None
    }

    /// The first device adapter with the id of the plan's device `j`.
    fn device_adapter(&self, j: usize) -> (r: Option<usize>)
        requires
            j < self.plan.devices@.len(),
        ensures
            match r {
                Some(a) => first_match(self.device_ids(), self.plan.devices@[j as int]@, a as int),
                None => !self.has_adapter(self.nd() + j),
            },
    {
        let id = &self.plan.devices[j];
        let mut a: usize = 0;
        while a < self.devices.len()
            invariant
                a <= self.devices@.len(),
                j < self.plan.devices@.len(),
                *id == self.plan.devices@[j as int],
                forall|b: int| 0 <= b < a ==> self.device_ids()[b] != id@,
            decreases self.devices@.len() - a,
        {
            if self.devices[a].0.same(id) {
                return Some(a);
            }
            a = a + 1;
        }
        assert(!self.has_adapter(self.nd() + j)) by {
            let kk = self.nd() + j;
            if self.has_adapter(kk) {
                let w = choose|w: int| #[trigger] entry_adapter(self.plan_of(), self.display_names(), self.device_ids(), kk, w);
                assert(self.device_ids()[w] == id@);
            }
        }
        None
    }

    /// Records the failed step of every entry without an adapter, then starts
    /// the next entry that has one, or finishes.
    fn advance(&mut self, now: u64) -> (r: Call)
        requires
            old(self).attempts() >= 1,
            old(self).steps().len() <= old(self).total(),
        ensures
            final(self).wf(),
            final(self).same_run(&*old(self)),
            final(self).moved_on(old(self).steps(), now, r),
    {
        let ghost start = self.steps@;
        loop
            invariant
                self.attempts() >= 1,
                self.steps@.len() <= self.total(),
                self.same_run(&*old(self)),
                self.plan == old(self).plan,
                start == old(self).steps@,
                start.len() <= self.steps@.len(),
                self.steps@.subrange(0, start.len() as int) == start,
                forall|k: int| start.len() <= k < self.steps@.len() ==> !#[trigger] entry_has_adapter(self.plan_of(), self.display_names(), self.device_ids(), k),
            forall|k: int| start.len() <= k < self.steps@.len() ==> step_view(#[trigger] self.steps@[k]) == self.missing_view(k),
            decreases self.total() - self.steps@.len(),
        {
            let k = self.steps.len();
            let nd = self.plan.displays.len();
            if k < nd {
                match self.display_adapter(k) {
                    Some(a) => {
                        self.stage = Stage::Display { adapter: a, attempt: 1, started: now };
                        return Call::SetInput { display: a, code: self.plan.displays[k].1, pause_ms: 0 };
                    },
                    None => {
                        let what = display_what(self.plan.displays[k].0.as_str());
                        let step = finish(what, 0, Err("display not found".to_owned()));
                        let ghost before = self.steps@;
                        self.steps.push(step);
                        assert(self.steps@.subrange(0, start.len() as int) =~= before.subrange(0, start.len() as int));
                    },
                }
            } else if k - nd < self.plan.devices.len() {
                match self.device_adapter(k - nd) {
                    Some(a) => {
                        self.stage = Stage::Reading { adapter: a, started: now };
                        return Call::ReadHosts { device: a };
                    },
                    None => {
                        let what = device_what(self.plan.devices[k - nd].0.as_str());
                        let step = finish(what, 0, Err("device not found".to_owned()));
                        let ghost before = self.steps@;
                        self.steps.push(step);
                        assert(self.steps@.subrange(0, start.len() as int) =~= before.subrange(0, start.len() as int));
                    },
                }
            } else {
                self.stage = Stage::Finished;
                return Call::Finished;
            }
        }
    }

    /// The first call of the run.
    pub fn start(&mut self, now: u64) -> (r: Call)
        requires
            old(self).wf(),
            old(self).stage() is Ready,
        ensures
            final(self).wf(),
            final(self).same_run(&*old(self)),
            final(self).moved_on(old(self).steps(), now, r),
    {
        self.advance(now)
    }

    /// The step's display answered a write at `now`. A failed write is tried
    /// again after the backoff while attempts are left; otherwise the step is
    /// recorded and the run moves on.
    pub fn display_answered(&mut self, result: Result<(), DisplayError>, now: u64) -> (r: Call)
        requires
            old(self).wf(),
            old(self).stage() is Display,
        ensures
            old(self).display_answer(*final(self), result, now, r),
    {
        let (adapter, attempt, started) = match self.stage {
            Stage::Display { adapter, attempt, started } => (adapter, attempt, started),
            _ => {
                proof {
                    assert(false);
                }
                (0, 0, 0)
            },
        };
        let k = self.steps.len();
        let code = self.plan.displays[k].1;
        let failed = match &result {
            Ok(()) => false,
            Err(_) => true,
        };
        if failed && attempt < self.attempts {
            self.stage = Stage::Display { adapter, attempt: attempt + 1, started };
            return Call::SetInput { display: adapter, code, pause_ms: ddc_backoff_ms(attempt) };
        }
        let what = display_what(self.plan.displays[k].0.as_str());
        let ms = if now >= started { now - started } else { 0 };
        let outcome = display_outcome(code, Some(result));
        let step = finish(what, ms, outcome);
        let ghost before = self.steps@;
        self.steps.push(step);
        assert(self.steps@.subrange(0, k as int) =~= before);
        let ghost recorded = self.steps@;
        let r = self.advance(now);
        assert(self.steps@.subrange(0, k as int) =~= recorded.subrange(0, k as int));
        assert(self.steps@.subrange(0, k + 1)[k as int] == recorded[k as int]);
        r
    }

    /// The step's device answered the host slot read at `now`: the host
    /// change is sent only when the reading allows it; otherwise the step is
    /// recorded and the run moves on.
    pub fn hosts_read(&mut self, info: Result<HostInfo, DeviceError>, now: u64) -> (r: Call)
        requires
            old(self).wf(),
            old(self).stage() is Reading,
        ensures
            old(self).hosts_answer(*final(self), info, now, r),
    {
        let (adapter, started) = match self.stage {
            Stage::Reading { adapter, started } => (adapter, started),
            _ => {
                proof {
                    assert(false);
                }
                (0, 0)
            },
        };
        let k = self.steps.len();
        match device_step(self.plan.target, self.plan.manual, &info) {
            DeviceStep::Switch => {
                self.stage = Stage::Switching { adapter, started };
                Call::SwitchHost { device: adapter, target: self.plan.target }
            },
            DeviceStep::Done(outcome) => {
                let what = device_what(self.devices[adapter].1.as_str());
                let ms = if now >= started { now - started } else { 0 };
                let step = finish(what, ms, outcome);
                let ghost before = self.steps@;
                self.steps.push(step);
                assert(self.steps@.subrange(0, k as int) =~= before);
                let ghost recorded = self.steps@;
                let r = self.advance(now);
                assert(self.steps@.subrange(0, k as int) =~= recorded.subrange(0, k as int));
                assert(self.steps@.subrange(0, k + 1)[k as int] == recorded[k as int]);
                r
            },
        }
    }

    /// The step's device answered the host change at `now`: the step is
    /// recorded and the run moves on.
    pub fn switched(&mut self, result: Result<(), DeviceError>, now: u64) -> (r: Call)
        requires
            old(self).wf(),
            old(self).stage() is Switching,
        ensures
            old(self).switch_answer(*final(self), result, now, r),
    {
        let (adapter, started) = match self.stage {
            Stage::Switching { adapter, started } => (adapter, started),
            _ => {
                proof {
                    assert(false);
                }
                (0, 0)
            },
        };
        let k = self.steps.len();
        let what = device_what(self.devices[adapter].1.as_str());
        let ms = if now >= started { now - started } else { 0 };
        let outcome = switch_outcome(self.plan.target, &result);
        let step = finish(what, ms, outcome);
        let ghost before = self.steps@;
        self.steps.push(step);
        assert(self.steps@.subrange(0, k as int) =~= before);
        let ghost recorded = self.steps@;
        let r = self.advance(now);
        assert(self.steps@.subrange(0, k as int) =~= recorded.subrange(0, k as int));
        assert(self.steps@.subrange(0, k + 1)[k as int] == recorded[k as int]);
        r
    }

    /// The steps recorded so far, in order.
    pub fn recorded(&self) -> (r: &[StepResult])
        ensures
            r@ == self.steps(),
    {
        self.steps.as_slice()
    }

    /// The report of the run: every step recorded, in order, and whether
    /// all of them succeeded.
    pub fn report(self) -> (r: SwitchReport)
        ensures
            r.target == self.plan_of().target,
            r.steps@ == self.steps(),
            r.ok == all_ok(self.steps()),
    {
        SwitchReport::from_steps(self.plan.target, self.steps)
    }
}

/// The shape every run keeps: display writes only while display steps are
/// under way, device calls only once every display step is recorded, never
/// more writes to one display than it may get, and a finished run holds
/// exactly one step per entry of the plan.
pub proof fn lemma_run_shape(run: PlanRun)
    requires
        run.wf(),
    ensures
        run.stage() is Display ==> run.steps().len() < run.nd() && run.stage()->Display_attempt <= run.attempts(),
        run.stage() is Reading || run.stage() is Switching ==> run.nd() <= run.steps().len() < run.total(),
        run.stage() is Finished ==> run.steps().len() == run.total(),
{
}

/// How much a run has left to do: the entries still without a step, each
/// worth at most `attempts + 2` answers, plus what the step under way can
/// still take.
pub open spec fn work_left(run: PlanRun) -> int {
    let w = run.attempts() + 2;
    let pending = run.total() - run.steps().len();
    pending * w + match run.stage() {
        Stage::Ready => run.attempts() + 1,
        Stage::Display { attempt, .. } => run.attempts() + 1 - attempt,
        Stage::Reading { .. } => 2,
        Stage::Switching { .. } => 1,
        Stage::Finished => 0,
    }
}

/// `after` is where `before` stands once the call it made was answered.
pub open spec fn answered(before: PlanRun, after: PlanRun) -> bool {
    ||| before.stage() is Display && exists|res: Result<(), DisplayError>, now: u64, r: Call|
        #[trigger] before.display_answer(after, res, now, r)
    ||| before.stage() is Reading && exists|info: Result<HostInfo, DeviceError>, now: u64, r: Call|
        #[trigger] before.hosts_answer(after, info, now, r)
    ||| before.stage() is Switching && exists|res: Result<(), DeviceError>, now: u64, r: Call|
        #[trigger] before.switch_answer(after, res, now, r)
}

/// Run `i + 1` of `runs` is where run `i` stands once its call was answered.
pub open spec fn answered_at(runs: Seq<PlanRun>, i: int) -> bool {
    answered(runs[i], runs[i + 1])
}

proof fn lemma_fewer_pending(p1: int, p2: int, w: int, r1: int, r2: int)
    by (nonlinear_arith)
    requires
        0 <= p2 < p1,
        w >= 1,
        0 <= r2 < w,
        r1 >= 1,
    ensures
        p2 * w + r2 < p1 * w + r1,
{
}

proof fn lemma_work_bounded(p: int, total: int, w: int, r: int)
    by (nonlinear_arith)
    requires
        0 <= p <= total,
        w >= 1,
        0 <= r < w,
    ensures
        0 <= p * w + r <= total * w + r,
{
}

/// Every answer moves a run forward: it keeps the steps already recorded,
/// never records a step for a later entry before an earlier one, and leaves
/// strictly less work than before, whatever the display or device answered.
pub proof fn lemma_every_answer_moves_forward(before: PlanRun, after: PlanRun)
    requires
        before.wf(),
        answered(before, after),
    ensures
        after.wf(),
        after.same_run(&before),
        after.steps().len() >= before.steps().len(),
        after.steps().subrange(0, before.steps().len() as int) == before.steps(),
        0 <= work_left(after) < work_left(before),
{
    let w = before.attempts() + 2;
    let p1 = before.total() - before.steps().len();
    let p2 = after.total() - after.steps().len();
    let r1 = work_left(before) - p1 * w;
    let r2 = work_left(after) - p2 * w;
    lemma_work_bounded(p2, after.total(), w, r2);
    let k = before.steps().len() as int;
    if after.steps().len() == before.steps().len() {
        assert(after.steps().subrange(0, k) =~= after.steps());
        assert(r2 < r1);
    } else {
        let m = after.steps().subrange(0, k + 1);
        assert(after.steps().subrange(0, k) =~= m.subrange(0, k));
        lemma_fewer_pending(p1, p2, w, r1, r2);
    }
}

/// A whole run ends: answering its calls one after another, a run of a plan
/// goes through at most as many answers as its work left, which is at most
/// `attempts + 2` per entry plus one more step's worth, and everything it
/// recorded before stays recorded. Once finished, it holds one step per
/// entry of the plan.
pub proof fn lemma_every_run_ends(runs: Seq<PlanRun>)
    requires
        runs.len() >= 1,
        runs[0].wf(),
        forall|i: int| 0 <= i < runs.len() - 1 ==> #[trigger] answered_at(runs, i),
    ensures
        runs.len() <= work_left(runs[0]) + 1,
        work_left(runs[0]) <= runs[0].total() * (runs[0].attempts() + 2) + runs[0].attempts() + 1,
        runs.last().wf(),
        runs.last().same_run(&runs[0]),
        runs.last().steps().len() >= runs[0].steps().len(),
        runs.last().steps().subrange(0, runs[0].steps().len() as int) == runs[0].steps(),
        runs.last().stage() is Finished ==> runs.last().steps().len() == runs[0].total(),
    decreases runs.len(),
{
    let w = runs[0].attempts() + 2;
    let p = runs[0].total() - runs[0].steps().len();
    lemma_work_bounded(p, runs[0].total(), w, work_left(runs[0]) - p * w);
    if runs.len() > 1 {
        assert(answered_at(runs, 0));
        lemma_every_answer_moves_forward(runs[0], runs[1]);
        let rest = runs.drop_first();
        assert forall|i: int| 0 <= i < rest.len() - 1 implies #[trigger] answered_at(rest, i) by {
            assert(answered_at(runs, i + 1));
            assert(rest[i] == runs[i + 1] && rest[i + 1] == runs[i + 2]);
        }
        lemma_every_run_ends(rest);
        assert(rest.last() == runs.last());
        let n0 = runs[0].steps().len() as int;
        let n1 = runs[1].steps().len() as int;
        assert(runs.last().steps().subrange(0, n0) =~= runs.last().steps().subrange(0, n1).subrange(
            0,
            n0,
        ));
    }
}

} // verus!
