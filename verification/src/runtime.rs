//! What the resident core publishes and the small decisions its event loop
//! makes between the coordinator and the hardware. The loop itself — channels,
//! timers, the HID watcher — belongs to the platform layer.

use vstd::prelude::*;

use crate::config::{lookup_input, Config, Language};
use crate::coordinator::{Action, Coordinator, Event, Millis, State};
use crate::executor::{StepResult, SwitchReport};
use crate::plan::{build_plan, plan_devices, plan_displays, spec_build_plan, PlanError, SwitchPlan};
use crate::text::{concat, decimal, decimal_text};
use crate::types::{HostIndex, TriggerEvent};

verus! {

/// Everything the tray and the settings window show.
#[derive(Clone, Debug)]
pub struct Status {
    /// `Idle`, `Confirming`, `Switching`, `Cooldown` or `Unconfigured`.
    pub state: String,
    pub config_ok: bool,
    pub config_error: Option<String>,
    pub this_host: Option<HostIndex>,
    pub hosts: Vec<(HostIndex, String)>,
    pub input_monitoring: bool,
    pub last_report: Option<SwitchReport>,
    /// The concrete language the window and the tray must speak, `"zh-Hans"`
    /// or `"en"`; never `"auto"`, so the two UIs cannot resolve "follow the
    /// system" differently.
    pub language: &'static str,
}

/// Why the core refused a request.
#[derive(Debug)]
pub enum CoreError {
    /// A switch is already running.
    Busy,
    /// There is no usable config.
    Unconfigured,
    /// The config could not be read or did not validate; the payload says how.
    Config(String),
    /// The plan for the switch could not be built.
    Plan(PlanError),
    /// The core has stopped.
    Stopped,
}

/// How long the pull decision waits for the monitor before the fallback rule
/// decides: a healthy read takes about 60 ms, a retried one about 540 ms.
pub const DECISION_READ_TIMEOUT_MS: u64 = 1500;

/// The name the status gives the coordinator's state; no coordinator means
/// there is no usable config.
pub open spec fn spec_state_name(state: Option<State>) -> Seq<char> {
    match state {
        None => "Unconfigured"@,
        Some(State::Idle) => "Idle"@,
        Some(State::Confirming { .. }) => "Confirming"@,
        Some(State::Switching { .. }) => "Switching"@,
        Some(State::Cooldown { .. }) => "Cooldown"@,
    }
}

pub fn state_name(state: Option<&State>) -> (r: &'static str)
    ensures
        r@ == spec_state_name(
            match state {
                Some(s) => Some(*s),
                None => None,
            },
        ),
{
    match state {
        None => "Unconfigured",
        Some(State::Idle) => "Idle",
        Some(State::Confirming { .. }) => "Confirming",
        Some(State::Switching { .. }) => "Switching",
        Some(State::Cooldown { .. }) => "Cooldown",
    }
}

/// The declared hosts as the status lists them: slot and name, in order.
pub open spec fn hosts_view(cfg: Config) -> Seq<(HostIndex, Seq<char>)> {
    Seq::new(cfg.hosts@.len(), |i: int| (cfg.hosts@[i].index, cfg.hosts@[i].name@))
}

pub open spec fn listed_hosts(hosts: Seq<(HostIndex, String)>) -> Seq<(HostIndex, Seq<char>)> {
    Seq::new(hosts.len(), |i: int| (hosts[i].0, hosts[i].1@))
}

fn host_list(cfg: &Config) -> (r: Vec<(HostIndex, String)>)
    ensures
        listed_hosts(r@) == hosts_view(*cfg),
{
    let mut out: Vec<(HostIndex, String)> = Vec::new();
    let mut i: usize = 0;
    while i < cfg.hosts.len()
        invariant
            i <= cfg.hosts@.len(),
            out@.len() == i,
            forall|j: int| 0 <= j < i ==> #[trigger] out@[j].0 == cfg.hosts@[j].index && out@[j].1@
                == cfg.hosts@[j].name@,
        decreases cfg.hosts@.len() - i,
    {
        out.push((cfg.hosts[i].index, cfg.hosts[i].name.clone()));
        i = i + 1;
    }
    assert(listed_hosts(out@) =~= hosts_view(*cfg));
    out
}

impl Status {
    /// What the status looks like before the first config has been read:
    /// there is no preference to read, so the system's own decides the
    /// language (`preferred` is the first entry of its list).
    pub fn unconfigured(preferred: Option<&str>) -> (r: Status)
        ensures
            r.state@ == "Unconfigured"@,
            !r.config_ok,
            r.config_error is None,
            r.this_host is None,
            r.hosts@.len() == 0,
            !r.input_monitoring,
            r.last_report is None,
            r.language@ == Language::Auto.spec_resolve(
                match preferred {
                    Some(p) => Some(p@),
                    None => None,
                },
            ),
    {
        Status {
            state: "Unconfigured".to_owned(),
            config_ok: false,
            config_error: None,
            this_host: None,
            hosts: Vec::new(),
            input_monitoring: false,
            last_report: None,
            language: Language::Auto.resolve(preferred),
        }
    }

    /// The status of a core running `coordinator` on `cfg`.
    ///
    /// A config kept only to let a running switch finish — one whose reload
    /// failed, so `config_error` is set — is not usable.
    pub fn of(
        coordinator: Option<&Coordinator>,
        cfg: Option<&Config>,
        config_error: Option<String>,
        input_monitoring: bool,
        last_report: Option<SwitchReport>,
        preferred: Option<&str>,
    ) -> (r: Status)
        ensures
            r.state@ == spec_state_name(
                match coordinator {
                    Some(c) => Some(c.state_of()),
                    None => None,
                },
            ),
            r.config_ok == (cfg is Some && config_error is None),
            r.config_error == config_error,
            r.this_host == match cfg {
                Some(c) => Some(c.this_host),
                None => None,
            },
            listed_hosts(r.hosts@) == match cfg {
                Some(c) => hosts_view(*c),
                None => Seq::empty(),
            },
            r.input_monitoring == input_monitoring,
            r.last_report == last_report,
            r.language@ == (match cfg {
                Some(c) => c.options.language,
                None => Language::Auto,
            }).spec_resolve(
                match preferred {
                    Some(p) => Some(p@),
                    None => None,
                },
            ),
    {
        let state = match coordinator {
            Some(c) => state_name(Some(c.state())),
            None => state_name(None),
        };
        let config_ok = cfg.is_some() && config_error.is_none();
        let (this_host, hosts, language) = match cfg {
            Some(c) => (Some(c.this_host), host_list(c), c.options.language),
            None => {
                let empty: Vec<(HostIndex, String)> = Vec::new();
                assert(listed_hosts(empty@) =~= Seq::empty());
                (None, empty, Language::Auto)
            },
        };
        Status {
            state: state.to_owned(),
            config_ok,
            config_error,
            this_host,
            hosts,
            input_monitoring,
            last_report,
            language: language.resolve(preferred),
        }
    }
}

/// The core is idle when no switch is running and the coordinator, if there
/// is one, is idle too: only then may a new config be installed.
pub fn is_idle(switch_in_flight: bool, state: Option<&State>) -> (r: bool)
    ensures
        r == (!switch_in_flight && match state {
            None => true,
            Some(s) => *s is Idle,
        }),
{
    if switch_in_flight {
        return false;
    }
    match state {
        None => true,
        Some(State::Idle) => true,
        Some(_) => false,
    }
}

/// Does the arrival debounce now running want a reading of the screen? Only
/// an arrival debounce does, and only while pulling on arrival is on.
pub fn pull_needs_the_screen(cfg: Option<&Config>, state: Option<&State>) -> (r: bool)
    ensures
        r == (match (cfg, state) {
            (Some(c), Some(State::Confirming { from_arrival, .. })) => *from_arrival
                && c.options.pull_on_arrival,
            _ => false,
        }),
{
    let c = match cfg {
        Some(c) => c,
        None => return false,
    };
    let arriving = match state {
        Some(State::Confirming { from_arrival, .. }) => *from_arrival,
        _ => false,
    };
    arriving && c.options.pull_on_arrival
}

/// A one-step report for a switch that could not run, so that the
/// coordinator always sees the end of the switch it is waiting for.
pub fn failed_report(target: HostIndex, detail: String) -> (r: SwitchReport)
    ensures
        r.target == target,
        !r.ok,
        r.steps@.len() == 1,
        r.steps@[0].what@ == "plan for host "@ + decimal(target as nat),
        !r.steps@[0].ok,
        r.steps@[0].detail@ == detail@,
        r.steps@[0].ms == 0,
{
    let n = decimal_text(target as u64);
    let what = concat("plan for host ", n.as_str());
    let mut steps: Vec<StepResult> = Vec::new();
    steps.push(StepResult { what, ok: false, detail, ms: 0 });
    SwitchReport { target, steps, ok: false }
}

/// Device `i` of the config carries vendor id `vid` in its id.
pub open spec fn vendor_at(cfg: Config, i: int, vid: u16) -> bool {
    match crate::types::spec_vid_pid(cfg.devices@[i].id@) {
        Some(k) => k.0 == vid,
        None => false,
    }
}

/// Some configured device carries vendor id `vid`.
pub open spec fn has_vendor(cfg: Config, vid: u16) -> bool {
    exists|i: int| 0 <= i < cfg.devices@.len() && #[trigger] vendor_at(cfg, i, vid)
}

/// A sequence with `x` inserted holds what it held, and `x`.
proof fn lemma_insert_contains(s: Seq<u16>, k: int, x: u16)
    requires
        0 <= k <= s.len(),
    ensures
        forall|v: u16| #[trigger] s.insert(k, x).contains(v) <==> (s.contains(v) || v == x),
{
    let t = s.insert(k, x);
    assert forall|v: u16| #[trigger] t.contains(v) <==> (s.contains(v) || v == x) by {
        if t.contains(v) {
            let i = choose|i: int| 0 <= i < t.len() && t[i] == v;
            if i < k {
                assert(s[i] == v);
            } else if i > k {
                assert(s[i - 1] == v);
            }
        }
        if s.contains(v) {
            let i = choose|i: int| 0 <= i < s.len() && s[i] == v;
            if i < k {
                assert(t[i] == v);
            } else {
                assert(t[i + 1] == v);
            }
        }
        if v == x {
            assert(t[k] == v);
        }
    }
}

/// The vendor ids of the configured devices, ascending and each once: what
/// the HID watcher matches on. Empty means every device.
pub fn matcher_vendors(cfg: &Config) -> (r: Vec<u16>)
    ensures
        forall|v: u16| r@.contains(v) <==> has_vendor(*cfg, v),
        forall|i: int, j: int| 0 <= i < j < r@.len() ==> r@[i] < r@[j],
{
    // Insert each vendor id in place, keeping the list ascending and free of
    // repeats.
    let mut out: Vec<u16> = Vec::new();
    let mut d: usize = 0;
    while d < cfg.devices.len()
        invariant
            d <= cfg.devices@.len(),
            forall|i: int, j: int| 0 <= i < j < out@.len() ==> out@[i] < out@[j],
            forall|v: u16| out@.contains(v) <==> exists|i: int| 0 <= i < d && #[trigger] vendor_at(*cfg, i, v),
        decreases cfg.devices@.len() - d,
    {
        let ghost before = out@;
        match cfg.devices[d].id.vid_pid() {
            Some((vid, _)) => {
                assert(vendor_at(*cfg, d as int, vid));
                assert(forall|v: u16| #[trigger] vendor_at(*cfg, d as int, v) ==> v == vid);
                let mut k: usize = 0;
                while k < out.len() && out[k] < vid
                    invariant
                        k <= out@.len(),
                        out@ == before,
                        d < cfg.devices@.len(),
                        vendor_at(*cfg, d as int, vid),
                        forall|v: u16| #[trigger] vendor_at(*cfg, d as int, v) ==> v == vid,
                        forall|i: int, j: int| 0 <= i < j < before.len() ==> before[i] < before[j],
                        forall|j: int| 0 <= j < k ==> out@[j] < vid,
                    decreases out@.len() - k,
                {
                    k = k + 1;
                }
                if k < out.len() && out[k] == vid {
                    assert(out@.contains(vid));
                    assert forall|v: u16| out@.contains(v) <==> (before.contains(v) || vendor_at(*cfg, d as int, v)) by {
                        if vendor_at(*cfg, d as int, v) {
                            assert(v == vid);
                        }
                    }
                } else {
                    out.insert(k, vid);
                    assert forall|i: int, j: int| 0 <= i < j < out@.len() implies out@[i] < out@[j] by {
                        if j < k {
                        } else if i < k && j == k {
                        } else if i < k {
                            assert(out@[j] == before[j - 1]);
                        } else if i == k {
                            assert(out@[j] == before[j - 1]);
                        } else {
                            assert(out@[i] == before[i - 1]);
                            assert(out@[j] == before[j - 1]);
                        }
                    }
                    proof {
                        lemma_insert_contains(before, k as int, vid);
                    }
                    assert forall|v: u16| out@.contains(v) <==> (before.contains(v) || vendor_at(*cfg, d as int, v)) by {
                        assert(before.insert(k as int, vid).contains(v) <==> (before.contains(v) || v == vid));
                        if vendor_at(*cfg, d as int, v) {
                            assert(v == vid);
                        }
                        if v == vid {
                            assert(vendor_at(*cfg, d as int, v));
                        }
                    }
                }
            },
            None => {
                assert forall|v: u16| out@.contains(v) <==> (before.contains(v) || vendor_at(*cfg, d as int, v)) by {
                    assert(!vendor_at(*cfg, d as int, v));
                }
            },
        }
        assert forall|v: u16| out@.contains(v) <==> exists|i: int| 0 <= i < d + 1 && #[trigger] vendor_at(*cfg, i, v) by {
            assert(out@.contains(v) <==> (before.contains(v) || vendor_at(*cfg, d as int, v)));
            if vendor_at(*cfg, d as int, v) {
                assert(exists|i: int| 0 <= i < d + 1 && #[trigger] vendor_at(*cfg, i, v));
            }
            if exists|i: int| 0 <= i < d + 1 && #[trigger] vendor_at(*cfg, i, v) {
                let i = choose|i: int| 0 <= i < d + 1 && #[trigger] vendor_at(*cfg, i, v);
                if i < d {
                    assert(exists|i: int| 0 <= i < d && #[trigger] vendor_at(*cfg, i, v));
                }
            }
        }
        d = d + 1;
    }
    out
}

/// The input code the first configured display shows when this host has the
/// screen: what a reading is compared against to tell whether the screen is
/// here. One display is all a Mac is judged by. `None` means the arrival
/// decides without a reading.
pub open spec fn spec_wanted_input(cfg: Config) -> Option<u8> {
    if cfg.displays@.len() == 0 {
        None
    } else {
        cfg.displays@[0].spec_input_for(cfg.this_host)
    }
}

pub fn wanted_input(cfg: &Config) -> (r: Option<u8>)
    ensures
        r == spec_wanted_input(*cfg),
{
    if cfg.displays.len() == 0 {
        None
    } else {
        cfg.displays[0].input_for(cfg.this_host)
    }
}

proof fn lemma_lookup_is_first_entry(entries: Seq<(HostIndex, u8)>, host: HostIndex, code: u8)
    ensures
        lookup_input(entries, host) == Some(code) <==> exists|i: int|
            0 <= i < entries.len() && entries[i] == (host, code) && forall|j: int|
                0 <= j < i ==> (#[trigger] entries[j]).0 != host,
        lookup_input(entries, host) is None <==> forall|i: int|
            0 <= i < entries.len() ==> (#[trigger] entries[i]).0 != host,
    decreases entries.len(),
{
    if entries.len() > 0 {
        let rest = entries.drop_first();
        lemma_lookup_is_first_entry(rest, host, code);
        if entries[0].0 == host {
            if lookup_input(entries, host) != Some(code) {
                assert forall|i: int|
                    0 <= i < entries.len() && entries[i] == (host, code) implies exists|j: int|
                    0 <= j < i && (#[trigger] entries[j]).0 == host by {
                    assert(i != 0);
                    assert(entries[0].0 == host);
                }
            }
        } else {
            if exists|i: int|
                0 <= i < entries.len() && entries[i] == (host, code) && forall|j: int|
                    0 <= j < i ==> (#[trigger] entries[j]).0 != host {
                let i = choose|i: int|
                    0 <= i < entries.len() && entries[i] == (host, code) && forall|j: int|
                        0 <= j < i ==> (#[trigger] entries[j]).0 != host;
                assert(rest[i - 1] == entries[i]);
                assert forall|j: int| 0 <= j < i - 1 implies (#[trigger] rest[j]).0 != host by {
                    assert(rest[j] == entries[j + 1]);
                }
            }
            if exists|i: int|
                0 <= i < rest.len() && rest[i] == (host, code) && forall|j: int|
                    0 <= j < i ==> (#[trigger] rest[j]).0 != host {
                let i = choose|i: int|
                    0 <= i < rest.len() && rest[i] == (host, code) && forall|j: int|
                        0 <= j < i ==> (#[trigger] rest[j]).0 != host;
                assert(entries[i + 1] == rest[i]);
                assert forall|j: int| 0 <= j < i + 1 implies (#[trigger] entries[j]).0 != host by {
                    if j > 0 {
                        assert(entries[j] == rest[j - 1]);
                    }
                }
            }
            assert((forall|i: int| 0 <= i < entries.len() ==> (#[trigger] entries[i]).0 != host)
                <==> (forall|i: int| 0 <= i < rest.len() ==> (#[trigger] rest[i]).0 != host)) by {
                if forall|i: int| 0 <= i < rest.len() ==> (#[trigger] rest[i]).0 != host {
                    assert forall|i: int| 0 <= i < entries.len() implies (#[trigger] entries[i]).0 != host by {
                        if i > 0 {
                            assert(entries[i] == rest[i - 1]);
                        }
                    }
                }
                if forall|i: int| 0 <= i < entries.len() ==> (#[trigger] entries[i]).0 != host {
                    assert forall|i: int| 0 <= i < rest.len() implies (#[trigger] rest[i]).0 != host by {
                        assert(rest[i] == entries[i + 1]);
                    }
                }
            }
        }
    }
}

/// The input a pull compares the monitor's answer with is the one the first
/// display is configured to show for *this* machine, whichever host this
/// machine is: it is `code` exactly when the first display's first entry for
/// `this_host` maps it to `code`, and there is none when the first display
/// has no entry for `this_host`, or there is no display at all.
pub proof fn lemma_wanted_input_is_this_hosts(cfg: Config, code: u8)
    ensures
        cfg.displays@.len() == 0 ==> spec_wanted_input(cfg) is None,
        cfg.displays@.len() > 0 ==> {
            let entries = cfg.displays@[0].input_by_host@;
            &&& spec_wanted_input(cfg) == Some(code) <==> exists|i: int|
                0 <= i < entries.len() && entries[i] == (cfg.this_host, code) && forall|j: int|
                    0 <= j < i ==> (#[trigger] entries[j]).0 != cfg.this_host
            &&& spec_wanted_input(cfg) is None <==> forall|i: int|
                0 <= i < entries.len() ==> (#[trigger] entries[i]).0 != cfg.this_host
        },
{
    if cfg.displays@.len() > 0 {
        lemma_lookup_is_first_entry(cfg.displays@[0].input_by_host@, cfg.this_host, code);
    }
}

/// Whether the screen is here, from what the monitor said it shows; no
/// answer stays no answer.
pub fn screen_here(showing: Option<u8>, wanted: u8) -> (r: Option<bool>)
    ensures
        r == match showing {
            Some(s) => Some(s == wanted),
            None => None,
        },
{
    match showing {
        Some(s) => Some(s == wanted),
        None => None,
    }
}

/// The core's configuration and its state machine, and the rules for
/// changing them.
///
/// A new config, or the loss of a usable one, only ever takes effect while the
/// core is idle: swapping the coordinator under a running switch would strand
/// it in `Switching` (its report would find nothing to finish, so the cooldown
/// would never happen), and swapping it during a debounce or a cooldown would
/// let a switch through without them. Until then the change waits.
pub struct Engine {
    /// The coordinator and, inside it, the config it runs on; `None` while
    /// there is no usable config.
    coordinator: Option<Coordinator>,
    config_error: Option<String>,
    /// A newer config that may only be installed once the core is idle.
    pending_config: Option<Config>,
    /// A failed reload that may only take the config away once the core is
    /// idle; the counterpart of `pending_config`.
    pending_removal: bool,
    /// Set from the start of a switch until its report comes back. The
    /// coordinator's `Switching` is not enough: two overlapping switches would
    /// fight over the same hardware.
    switch_in_flight: bool,
}

impl Engine {
    pub closed spec fn coordinator_of(&self) -> Option<Coordinator> {
        self.coordinator
    }

    pub closed spec fn error_of(&self) -> Option<String> {
        self.config_error
    }

    pub closed spec fn pending_of(&self) -> Option<Config> {
        self.pending_config
    }

    pub closed spec fn removal_pending(&self) -> bool {
        self.pending_removal
    }

    pub closed spec fn in_flight(&self) -> bool {
        self.switch_in_flight
    }

    /// No switch running and the coordinator, if any, idle.
    pub open spec fn idle(&self) -> bool {
        !self.in_flight() && match self.coordinator_of() {
            None => true,
            Some(c) => c.state_of() is Idle,
        }
    }

    /// A core that has not read a config yet.
    pub fn new() -> (r: Engine)
        ensures
            r.coordinator_of() is None,
            r.error_of() is None,
            r.pending_of() is None,
            !r.removal_pending(),
            !r.in_flight(),
    {
        Engine {
            coordinator: None,
            config_error: None,
            pending_config: None,
            pending_removal: false,
            switch_in_flight: false,
        }
    }

    pub fn coordinator(&self) -> (r: Option<&Coordinator>)
        ensures
            match r {
                Some(c) => self.coordinator_of() == Some(*c),
                None => self.coordinator_of() is None,
            },
    {
        match &self.coordinator {
            Some(c) => Some(c),
            None => None,
        }
    }

    /// The config the coordinator runs on, if there is a usable one.
    pub fn config(&self) -> (r: Option<&Config>)
        ensures
            match r {
                Some(c) => self.coordinator_of() matches Some(k) && *c == k.config_of(),
                None => self.coordinator_of() is None,
            },
    {
        match &self.coordinator {
            Some(c) => Some(c.config()),
            None => None,
        }
    }

    pub fn config_error(&self) -> (r: Option<&String>)
        ensures
            match r {
                Some(e) => self.error_of() == Some(*e),
                None => self.error_of() is None,
            },
    {
        match &self.config_error {
            Some(e) => Some(e),
            None => None,
        }
    }

    pub fn is_idle(&self) -> (r: bool)
        ensures
            r == self.idle(),
    {
        let state = match &self.coordinator {
            Some(c) => Some(c.state()),
            None => None,
        };
        is_idle(self.switch_in_flight, state)
    }

    /// A reload produced a valid `cfg`: it is installed now when the core is
    /// idle, and waits otherwise; either way the last error is cleared and no
    /// removal is pending any more.
    pub fn loaded(&mut self, cfg: Config)
        ensures
            final(self).error_of() is None,
            !final(self).removal_pending(),
            final(self).in_flight() == old(self).in_flight(),
            old(self).idle() ==> {
                &&& final(self).coordinator_of() matches Some(c) && c.config_of() == cfg
                    && c.state_of() is Idle && c.last_target_of() is None && c.screen_of() is None
                &&& final(self).pending_of() == old(self).pending_of()
            },
            !old(self).idle() ==> {
                &&& final(self).coordinator_of() == old(self).coordinator_of()
                &&& final(self).pending_of() == Some(cfg)
            },
    {
        self.config_error = None;
        self.pending_removal = false;
        if self.is_idle() {
            self.coordinator = Some(Coordinator::new(cfg));
        } else {
            self.pending_config = Some(cfg);
        }
    }

    /// A reload failed with `message`: switching is off. The config goes at
    /// once when the core is idle, and once it is idle otherwise; a newer
    /// config that was waiting is dropped. Says whether the coordinator went.
    pub fn failed(&mut self, message: String) -> (r: bool)
        ensures
            final(self).error_of() == Some(message),
            final(self).pending_of() is None,
            final(self).in_flight() == old(self).in_flight(),
            r == old(self).idle(),
            old(self).idle() ==> final(self).coordinator_of() is None && !final(self).removal_pending(),
            !old(self).idle() ==> final(self).coordinator_of() == old(self).coordinator_of()
                && final(self).removal_pending(),
    {
        let idle = self.is_idle();
        self.config_error = Some(message);
        self.pending_config = None;
        if idle {
            self.coordinator = None;
            self.pending_removal = false;
        } else {
            self.pending_removal = true;
        }
        idle
    }

    /// Applies whatever a reload deferred, now that the core may be idle: the
    /// removal of an unusable config, or a newer one. Says whether anything
    /// changed.
    pub fn install_pending(&mut self) -> (r: bool)
        ensures
            final(self).error_of() == old(self).error_of(),
            final(self).in_flight() == old(self).in_flight(),
            !old(self).idle() ==> !r && *final(self) == *old(self),
            old(self).idle() && old(self).removal_pending() ==> r && final(self).coordinator_of() is None
                && !final(self).removal_pending(),
            old(self).idle() && !old(self).removal_pending() ==> match old(self).pending_of() {
                Some(cfg) => {
                    &&& r
                    &&& final(self).pending_of() is None
                    &&& final(self).coordinator_of() matches Some(c) && c.config_of() == cfg
                        && c.state_of() is Idle && c.last_target_of() is None && c.screen_of() is None
                },
                None => !r && *final(self) == *old(self),
            },
    {
        if !self.is_idle() {
            return false;
        }
        if self.pending_removal {
            self.pending_removal = false;
            self.coordinator = None;
            return true;
        }
        let mut pending: Option<Config> = None;
        std::mem::swap(&mut pending, &mut self.pending_config);
        match pending {
            Some(cfg) => {
                self.coordinator = Some(Coordinator::new(cfg));
                true
            },
            None => false,
        }
    }

    /// Hands `ev` to the coordinator; `None` when there is no usable config
    /// and the event is dropped.
    pub fn handle(&mut self, ev: Event, now: Millis) -> (r: Option<Action>)
        requires
            old(self).coordinator_of() matches Some(c) ==> c.time_fits(now),
        ensures
            final(self).error_of() == old(self).error_of(),
            final(self).pending_of() == old(self).pending_of(),
            final(self).removal_pending() == old(self).removal_pending(),
            final(self).in_flight() == old(self).in_flight(),
            match old(self).coordinator_of() {
                None => r is None && final(self).coordinator_of() is None,
                Some(c) => {
                    let (s, l, o, a) = crate::coordinator::step(
                        c.config_of(),
                        c.state_of(),
                        c.last_target_of(),
                        c.screen_of(),
                        ev,
                        now,
                    );
                    &&& r == Some(a)
                    &&& final(self).coordinator_of() matches Some(k) && k.config_of() == c.config_of()
                        && k.state_of() == s && k.last_target_of() == l && k.screen_of() == o
                },
            },
    {
        match &mut self.coordinator {
            Some(c) => Some(c.handle(ev, now)),
            None => None,
        }
    }

    /// Records what the monitor said about where the screen is.
    pub fn observe_screen(&mut self, here: Option<bool>)
        ensures
            final(self).error_of() == old(self).error_of(),
            final(self).pending_of() == old(self).pending_of(),
            final(self).removal_pending() == old(self).removal_pending(),
            final(self).in_flight() == old(self).in_flight(),
            match old(self).coordinator_of() {
                None => final(self).coordinator_of() is None,
                Some(c) => final(self).coordinator_of() matches Some(k) && k.screen_of() == here
                    && k.state_of() == c.state_of() && k.config_of() == c.config_of()
                    && k.last_target_of() == c.last_target_of(),
            },
    {
        match &mut self.coordinator {
            Some(c) => c.observe_screen(here),
            None => {},
        }
    }

    /// A switch has started; until its report comes back the core is busy.
    pub fn switch_started(&mut self)
        ensures
            final(self).in_flight(),
            final(self).coordinator_of() == old(self).coordinator_of(),
            final(self).error_of() == old(self).error_of(),
            final(self).pending_of() == old(self).pending_of(),
            final(self).removal_pending() == old(self).removal_pending(),
    {
        self.switch_in_flight = true;
    }

    /// The running switch's report came back.
    pub fn switch_finished(&mut self)
        ensures
            !final(self).in_flight(),
            final(self).coordinator_of() == old(self).coordinator_of(),
            final(self).error_of() == old(self).error_of(),
            final(self).pending_of() == old(self).pending_of(),
            final(self).removal_pending() == old(self).removal_pending(),
    {
        self.switch_in_flight = false;
    }

    /// The plan for a manual switch to `target`, if one may be started: there
    /// must be a usable config, the target must be plannable, and the
    /// coordinator must agree to start it (it refuses while busy). On success
    /// the coordinator is `Switching`; the caller runs the plan.
    pub fn manual_switch(&mut self, target: HostIndex, source: &'static str, now: Millis) -> (r: Result<SwitchPlan, CoreError>)
        requires
            old(self).coordinator_of() matches Some(c) ==> c.time_fits(now),
        ensures
            final(self).error_of() == old(self).error_of(),
            final(self).pending_of() == old(self).pending_of(),
            final(self).in_flight() == old(self).in_flight(),
            match old(self).coordinator_of() {
                None => r matches Err(CoreError::Unconfigured) && final(self).coordinator_of() is None,
                Some(c) => match spec_build_plan(&c.config_of(), target, true) {
                    Err(e) => {
                        &&& r matches Err(CoreError::Plan(f)) && f == e
                        &&& final(self).coordinator_of() == old(self).coordinator_of()
                    },
                    Ok(()) => {
                        let (s, l, o, a) = crate::coordinator::step(
                            c.config_of(),
                            c.state_of(),
                            c.last_target_of(),
                            c.screen_of(),
                            Event::Trigger(TriggerEvent::Manual { target, source }),
                            now,
                        );
                        &&& final(self).coordinator_of() matches Some(k) && k.config_of() == c.config_of()
                            && k.state_of() == s && k.last_target_of() == l && k.screen_of() == o
                        &&& (r is Ok <==> a is StartSwitch)
                        &&& r is Ok ==> s == (State::Switching { target, returning: None })
                        &&& r matches Ok(p) ==> p.target == target && p.manual
                            && p.displays@ == plan_displays(&c.config_of(), target)
                            && p.devices@ == plan_devices(&c.config_of(), true)
                        &&& r is Err ==> r matches Err(CoreError::Busy)
                    },
                },
            },
    {
        let c = match &mut self.coordinator {
            Some(c) => c,
            None => return Err(CoreError::Unconfigured),
        };
        let plan = match build_plan(c.config(), target, true) {
            Ok(plan) => plan,
            Err(e) => return Err(CoreError::Plan(e)),
        };
        proof {
            crate::coordinator::lemma_switch_only_when_due(
                c.config_of(),
                c.state_of(),
                c.last_target_of(),
                c.screen_of(),
                Event::Trigger(TriggerEvent::Manual { target, source }),
                now,
            );
        }
        match c.handle(Event::Trigger(TriggerEvent::Manual { target, source }), now) {
            Action::StartSwitch { .. } => Ok(plan),
            _ => Err(CoreError::Busy),
        }
    }
}

} // verus!
