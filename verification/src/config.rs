//! The configuration: model, validation and adoption on another machine.
//!
//! The file on disk is the single source of truth; reading and writing it is
//! the application's business. Field names mirror the JSON file.

use vstd::prelude::*;

use crate::text::{
    ascii_lower, chars_of, decimal, decimal_text, eq_ignore_ascii_case, lower, lower_char,
    range_eq, str_eq, trim_bounds, trimmed,
};
use crate::types::{DeviceId, DeviceRole, HostIndex};

verus! {

/// The shape of the config file this build reads and writes. A file carrying
/// any other number was written by a Relay that means something else by these
/// field names, and there is no migration.
pub const SCHEMA_VERSION: u32 = 1;

/// The shortest cooldown between two switches. Repeated `ChangeHost` calls in
/// quick succession have corrupted the Bluetooth connection before, so a
/// near-zero cooldown must not be storable at all.
pub const MIN_COOLDOWN_MS: u64 = 1_000;

/// The shortest debounce before a presence event becomes a switch. Below this
/// a single flaky BLE disconnect would fire a switch on its own.
pub const MIN_DEBOUNCE_MS: u64 = 100;

/// The tag the UI and the tray use for Simplified Chinese.
pub const LANG_ZH_HANS: &'static str = "zh-Hans";

/// The tag the UI and the tray use for English.
pub const LANG_EN: &'static str = "en";

#[derive(Clone, Debug, PartialEq, Eq)]
pub struct Config {
    pub schema_version: u32,
    /// Which declared host this machine is.
    pub this_host: HostIndex,
    pub hosts: Vec<Host>,
    pub displays: Vec<DisplayConfig>,
    pub devices: Vec<DeviceConfig>,
    pub timing: Timing,
    /// Host index (as a string, e.g. `"0"`) to accelerator, e.g. `"Ctrl+Alt+1"`,
    /// one entry per key (see [`Config::tables_wf`]).
    pub hotkeys: Vec<(String, String)>,
    pub options: Options,
}

#[derive(Clone, Debug, PartialEq, Eq)]
pub struct Host {
    /// The HID++ host slot on the devices; only paired slots may be declared.
    pub index: HostIndex,
    pub name: String,
}

#[derive(Clone, Debug, PartialEq, Eq)]
pub struct DisplayConfig {
    pub edid_uuid: String,
    pub name: String,
    /// Host index to DDC input source value, one entry per host (see
    /// [`DisplayConfig::tables_wf`]); should a caller write a host twice,
    /// its first entry is the one that counts.
    pub input_by_host: Vec<(HostIndex, u8)>,
}

/// The input the first entry for `host` names, if there is one.
pub open spec fn lookup_input(entries: Seq<(HostIndex, u8)>, host: HostIndex) -> Option<u8>
    decreases entries.len(),
{
    if entries.len() == 0 {
        None
    } else if entries[0].0 == host {
        Some(entries[0].1)
    } else {
        lookup_input(entries.drop_first(), host)
    }
}

/// The host a key of the file's per-host tables names: a key names a host
/// only when it is that host's index written out plainly in decimal, the
/// way the file is written; `"01"` or `" 1"` name none.
pub fn host_key(key: &str) -> (r: Option<HostIndex>)
    ensures
        match r {
            Some(h) => key@ == decimal(h as nat),
            None => forall|h: HostIndex| key@ != decimal(h as nat),
        },
{
    let mut h: u16 = 0;
    while h < 256
        invariant
            h <= 256,
            forall|g: HostIndex| g < h ==> key@ != decimal(g as nat),
        decreases 256 - h,
    {
        let text = decimal_text(h as u64);
        if str_eq(text.as_str(), key) {
            return Some(h as u8);
        }
        h = h + 1;
    }
    None
}

/// The key the file's per-host tables write `host` under.
pub fn host_key_text(host: HostIndex) -> (r: String)
    ensures
        r@ == decimal(host as nat),
{
    decimal_text(host as u64)
}

/// No host has two entries in `entries`: the table is a map from host to
/// input, as the file's per-host object is.
pub open spec fn hosts_unique(entries: Seq<(HostIndex, u8)>) -> bool {
    forall|i: int, j: int| 0 <= i < j < entries.len() ==> #[trigger] entries[i].0 != #[trigger] entries[j].0
}

/// No host key of `entries` is written twice: the table is a map from key
/// to accelerator, as the file's object is.
pub open spec fn hotkey_keys_unique(entries: Seq<(String, String)>) -> bool {
    forall|i: int, j: int| 0 <= i < j < entries.len() ==> (#[trigger] entries[i].0)@ != (#[trigger] entries[j].0)@
}

proof fn lemma_lookup_finds_entry(entries: Seq<(HostIndex, u8)>, host: HostIndex, code: u8)
    requires
        hosts_unique(entries),
    ensures
        lookup_input(entries, host) == Some(code) <==> entries.contains((host, code)),
        lookup_input(entries, host) is None <==> forall|i: int| 0 <= i < entries.len() ==> #[trigger] entries[i].0 != host,
    decreases entries.len(),
{
    if entries.len() > 0 {
        let rest = entries.drop_first();
        assert(hosts_unique(rest)) by {
            assert forall|i: int, j: int| 0 <= i < j < rest.len() implies #[trigger] rest[i].0 != #[trigger] rest[j].0 by {
                assert(rest[i] == entries[i + 1] && rest[j] == entries[j + 1]);
            }
        }
        lemma_lookup_finds_entry(rest, host, code);
        if entries[0].0 == host {
            assert forall|i: int| 0 <= i < rest.len() implies #[trigger] rest[i].0 != host by {
                assert(rest[i] == entries[i + 1]);
            }
            if entries.contains((host, code)) {
                let i = choose|i: int| 0 <= i < entries.len() && entries[i] == (host, code);
                if i > 0 {
                    assert(entries[0].0 != entries[i].0);
                }
            }
        } else {
            if entries.contains((host, code)) {
                let i = choose|i: int| 0 <= i < entries.len() && entries[i] == (host, code);
                assert(rest[i - 1] == entries[i]);
            }
            if rest.contains((host, code)) {
                let i = choose|i: int| 0 <= i < rest.len() && rest[i] == (host, code);
                assert(entries[i + 1] == rest[i]);
            }
            assert forall|i: int| 0 <= i < entries.len() && i > 0 implies (#[trigger] entries[i].0 != host
                <== rest[i - 1].0 != host) by {
                assert(rest[i - 1] == entries[i]);
            }
        }
    }
}

/// With no host written twice, a display's table is a map: the input found
/// for a host is the one entry the table holds for it, whatever the order
/// of the entries, and a host without an entry finds none.
pub proof fn lemma_input_table_is_a_map(d: DisplayConfig, host: HostIndex, code: u8)
    requires
        d.tables_wf(),
    ensures
        d.spec_input_for(host) == Some(code) <==> d.input_by_host@.contains((host, code)),
        d.spec_input_for(host) is None <==> forall|i: int|
            0 <= i < d.input_by_host@.len() ==> #[trigger] d.input_by_host@[i].0 != host,
{
    lemma_lookup_finds_entry(d.input_by_host@, host, code);
}

impl DisplayConfig {
    /// The table's invariant: no host has two entries.
    pub open spec fn tables_wf(&self) -> bool {
        hosts_unique(self.input_by_host@)
    }

    pub open spec fn spec_input_for(&self, host: HostIndex) -> Option<u8> {
        lookup_input(self.input_by_host@, host)
    }

    /// The DDC input source this display must show when `host` owns the screen.
    pub fn input_for(&self, host: HostIndex) -> (r: Option<u8>)
        ensures
            r == self.spec_input_for(host),
    {
        let mut i: usize = 0;
        assert(self.input_by_host@.subrange(0, self.input_by_host@.len() as int)
            == self.input_by_host@);
        while i < self.input_by_host.len()
            invariant
                i <= self.input_by_host@.len(),
                lookup_input(self.input_by_host@, host) == lookup_input(
                    self.input_by_host@.subrange(i as int, self.input_by_host@.len() as int),
                    host,
                ),
            decreases self.input_by_host@.len() - i,
        {
            let ghost rest = self.input_by_host@.subrange(i as int, self.input_by_host@.len() as int);
            assert(rest.drop_first() == self.input_by_host@.subrange(
                i + 1,
                self.input_by_host@.len() as int,
            ));
            if self.input_by_host[i].0 == host {
                return Some(self.input_by_host[i].1);
            }
            i = i + 1;
        }
        None
    }
}

#[derive(Clone, Debug, PartialEq, Eq)]
pub struct DeviceConfig {
    pub id: DeviceId,
    pub name: String,
    pub role: DeviceRole,
    /// Free-form, e.g. `"ble"`; the device layer owns the vocabulary.
    pub transport: String,
    /// Tells two devices with the same `vid:pid` apart.
    pub serial: Option<String>,
    /// Its leaving this machine starts a switch.
    pub is_trigger: bool,
    /// It is sent along to the target host on every switch.
    pub follow: bool,
    /// Where to switch when this trigger leaves; required with three hosts or more.
    pub leave_to: Option<HostIndex>,
}

impl DeviceConfig {
    /// The same device with its `leave_to` replaced.
    pub fn with_leave_to(&self, leave_to: Option<HostIndex>) -> (r: DeviceConfig)
        ensures
            r == (DeviceConfig { leave_to, ..*self }),
    {
        DeviceConfig {
            id: self.id.copied(),
            name: self.name.clone(),
            role: self.role,
            transport: self.transport.clone(),
            serial: match &self.serial {
                Some(serial) => Some(serial.clone()),
                None => None,
            },
            is_trigger: self.is_trigger,
            follow: self.follow,
            leave_to,
        }
    }
}

#[derive(Clone, Copy, Debug, PartialEq, Eq, Structural)]
pub struct Timing {
    pub debounce_ms: u64,
    pub cooldown_ms: u64,
    pub ddc_retries: u8,
}

/// Which language the settings window and the tray menu speak.
///
/// `Auto` is never handed to a UI: [`Language::resolve`] turns it into one of
/// the two concrete tags first, so the window and the menu cannot end up
/// disagreeing about what "follow the system" means.
#[derive(Clone, Copy, Debug, PartialEq, Eq, Structural)]
pub enum Language {
    /// Whatever this Mac's preferred language resolves to.
    Auto,
    ZhHans,
    En,
}

/// Does the preferred-language tag `tag` name Chinese?
pub open spec fn tag_is_chinese(tag: Seq<char>) -> bool {
    let t = ascii_lower(trimmed(tag));
    t.len() >= 2 && t[0] == 'z' && t[1] == 'h'
}

/// The tag Relay has a dictionary for that `tag` maps to.
pub open spec fn spec_tag_language(tag: Seq<char>) -> Seq<char> {
    if tag_is_chinese(tag) {
        LANG_ZH_HANS@
    } else {
        LANG_EN@
    }
}

/// Maps one BCP-47 tag (`zh-Hans-CN`, `en-US`, …) to a tag Relay has a
/// dictionary for: anything Chinese is Simplified Chinese, the rest English.
pub fn tag_language(tag: &str) -> (r: &'static str)
    ensures
        r@ == spec_tag_language(tag@),
{
    let v = chars_of(tag);
    let (lo, hi) = trim_bounds(&v, 0, v.len());
    let ghost w = v@.subrange(lo as int, hi as int);
    proof {
        assert(v@.subrange(0, v@.len() as int) == v@);
        assert(w == trimmed(tag@));
    }
    let chinese = hi - lo >= 2 && lower(v[lo]) == 'z' && lower(v[lo + 1]) == 'h';
    proof {
        let t = ascii_lower(w);
        assert(t.len() == w.len());
        if w.len() >= 2 {
            assert(w[0] == v@[lo as int]);
            assert(w[1] == v@[lo + 1]);
            assert(t[0] == lower_char(w[0]));
            assert(t[1] == lower_char(w[1]));
        }
        assert(chinese == tag_is_chinese(tag@));
    }
    if chinese {
        LANG_ZH_HANS
    } else {
        LANG_EN
    }
}

impl Language {
    /// What `resolve` answers for this language, given the first entry of
    /// this Mac's preferred language list.
    pub open spec fn spec_resolve(self, preferred: Option<Seq<char>>) -> Seq<char> {
        match self {
            Language::ZhHans => LANG_ZH_HANS@,
            Language::En => LANG_EN@,
            Language::Auto => match preferred {
                Some(tag) => spec_tag_language(tag),
                None => LANG_ZH_HANS@,
            },
        }
    }

    /// The concrete tag the UI must speak; never `"auto"`.
    ///
    /// `preferred` is the first entry of this Mac's preferred language list,
    /// which only `Auto` consults. An unreadable or empty list means Chinese,
    /// which is what the only user of this app speaks.
    pub fn resolve(self, preferred: Option<&str>) -> (r: &'static str)
        ensures
            r@ == self.spec_resolve(
                match preferred {
                    Some(tag) => Some(tag@),
                    None => None,
                },
            ),
    {
        match self {
            Language::ZhHans => LANG_ZH_HANS,
            Language::En => LANG_EN,
            Language::Auto => match preferred {
                Some(tag) => tag_language(tag),
                None => LANG_ZH_HANS,
            },
        }
    }
}

#[derive(Clone, Copy, Debug, PartialEq, Eq, Structural)]
pub struct Options {
    /// Bring the screen and the following devices back when the trigger device
    /// bounces back to this Mac right after a switch away.
    pub switch_back_on_reconnect: bool,
    /// Pull the screen and the following devices back when the trigger device
    /// arrives on this Mac while the screen is elsewhere.
    pub pull_on_arrival: bool,
    pub launch_at_login: bool,
    /// Which language the window and the tray speak.
    pub language: Language,
}

impl Options {
    /// The default for [`Options::switch_back_on_reconnect`] when a config
    /// predates the option.
    pub fn default_switch_back() -> (r: bool)
        ensures
            r,
    {
        true
    }

    /// The default for [`Options::pull_on_arrival`] when a config predates the
    /// option.
    pub fn default_pull_on_arrival() -> (r: bool)
        ensures
            r,
    {
        true
    }

    /// The default for [`Options::language`] when a config predates the option.
    pub fn default_language() -> (r: Language)
        ensures
            r == Language::Auto,
    {
        Language::Auto
    }
}

/// Why a config cannot be used, or cannot be adopted.
#[derive(Clone, Debug, PartialEq, Eq)]
pub enum ConfigError {
    ThisHostNotDeclared(HostIndex),
    MissingInput { display: String, host: HostIndex },
    NoTriggerDevice,
    NoFollowDevice,
    TriggerCannotFollow { id: DeviceId },
    DuplicateDevice { id: DeviceId },
    DuplicateDisplay { edid_uuid: String },
    DuplicateDisplayName { name: String },
    DuplicateDisplayInput { display: String, first: HostIndex, second: HostIndex, code: u8 },
    LeaveToNotDeclared { device: DeviceId, host: HostIndex },
    LeaveToIsThisHost { device: DeviceId, host: HostIndex },
    MissingLeaveTo { device: DeviceId },
    CooldownTooShort { ms: u64 },
    DebounceTooShort { ms: u64 },
    AdoptUnknownHost { index: HostIndex },
    AdoptLeaveToRequired,
    AdoptLeaveToIsThisHost,
}

// ---------------------------------------------------------------------------
// What validation means, one rule at a time.
// ---------------------------------------------------------------------------

impl Config {
    /// The invariant the per-host tables keep: each display's input table
    /// and the hotkey table are maps, no key written twice.
    pub open spec fn tables_wf(&self) -> bool {
        &&& forall|d: int| 0 <= d < self.displays@.len() ==> (#[trigger] self.displays@[d]).tables_wf()
        &&& hotkey_keys_unique(self.hotkeys@)
    }

    /// Is `index` one of the declared host slots?
    pub open spec fn declares(&self, index: HostIndex) -> bool {
        exists|i: int| 0 <= i < self.hosts@.len() && #[trigger] self.hosts@[i].index == index
    }

    /// The input display `d` gives the `h`-th declared host.
    pub open spec fn input_at(&self, d: int, h: int) -> Option<u8> {
        self.displays@[d].spec_input_for(self.hosts@[h].index)
    }

    /// The `k`-th host comes before the `h`-th and shares its input on
    /// display `d`.
    pub open spec fn shares_input(&self, d: int, k: int, h: int) -> bool {
        0 <= k < h && self.input_at(d, k) == self.input_at(d, h)
    }

    /// Display `d` has no input for the `h`-th host, or gives it one an
    /// earlier host already has: the screen's input would name two hosts.
    pub open spec fn input_clash(&self, d: int, h: int) -> bool {
        ||| self.input_at(d, h) is None
        ||| exists|k: int| #[trigger] self.shares_input(d, k, h)
    }

    /// `(d, h)` is the first input clash in display-then-host order.
    pub open spec fn first_input_clash(&self, d: int, h: int) -> bool {
        &&& 0 <= d < self.displays@.len()
        &&& 0 <= h < self.hosts@.len()
        &&& self.input_clash(d, h)
        &&& forall|e: int, g: int|
            0 <= e < self.displays@.len() && 0 <= g < self.hosts@.len() && (e < d || (e == d && g
                < h)) ==> !#[trigger] self.input_clash(e, g)
    }

    pub open spec fn input_rule(&self) -> Option<ConfigError> {
        if exists|d: int, h: int| self.first_input_clash(d, h) {
            let (d, h) = choose|d: int, h: int| self.first_input_clash(d, h);
            let display = self.displays@[d].name;
            let host = self.hosts@[h].index;
            if self.input_at(d, h) is None {
                Some(ConfigError::MissingInput { display, host })
            } else {
                let k = choose|k: int| self.shares_input(d, k, h);
                Some(
                    ConfigError::DuplicateDisplayInput {
                        display,
                        first: self.hosts@[k].index,
                        second: host,
                        code: self.input_at(d, h)->0,
                    },
                )
            }
        } else {
            None
        }
    }

    /// Display `i` names a non-empty EDID UUID an earlier display names too,
    /// ignoring ASCII case.
    pub open spec fn uuid_repeated(&self, i: int) -> bool {
        &&& self.displays@[i].edid_uuid@.len() > 0
        &&& exists|j: int|
            0 <= j < i && self.displays@[j].edid_uuid@.len() > 0 && ascii_lower(
                #[trigger] self.displays@[j].edid_uuid@,
            ) == ascii_lower(self.displays@[i].edid_uuid@)
    }

    pub open spec fn first_uuid_repeat(&self, i: int) -> bool {
        &&& 0 <= i < self.displays@.len()
        &&& self.uuid_repeated(i)
        &&& forall|j: int| 0 <= j < i ==> !#[trigger] self.uuid_repeated(j)
    }

    pub open spec fn uuid_rule(&self) -> Option<ConfigError> {
        if exists|i: int| self.first_uuid_repeat(i) {
            let i = choose|i: int| self.first_uuid_repeat(i);
            Some(ConfigError::DuplicateDisplay { edid_uuid: self.displays@[i].edid_uuid })
        } else {
            None
        }
    }

    /// Display `i`'s name, trimmed, is an earlier display's name, trimmed.
    pub open spec fn name_repeated(&self, i: int) -> bool {
        exists|j: int|
            0 <= j < i && trimmed(#[trigger] self.displays@[j].name@) == trimmed(
                self.displays@[i].name@,
            )
    }

    pub open spec fn first_name_repeat(&self, i: int) -> bool {
        &&& 0 <= i < self.displays@.len()
        &&& self.name_repeated(i)
        &&& forall|j: int| 0 <= j < i ==> !#[trigger] self.name_repeated(j)
    }

    pub open spec fn name_rule(&self) -> Option<ConfigError> {
        if exists|i: int| self.first_name_repeat(i) {
            let i = choose|i: int| self.first_name_repeat(i);
            Some(ConfigError::DuplicateDisplayName { name: self.displays@[i].name })
        } else {
            None
        }
    }

    pub open spec fn has_trigger(&self) -> bool {
        exists|i: int| 0 <= i < self.devices@.len() && #[trigger] self.devices@[i].is_trigger
    }

    pub open spec fn has_follower(&self) -> bool {
        exists|i: int| 0 <= i < self.devices@.len() && #[trigger] self.devices@[i].follow
    }

    pub open spec fn both_roles(&self, i: int) -> bool {
        self.devices@[i].is_trigger && self.devices@[i].follow
    }

    pub open spec fn first_both_roles(&self, i: int) -> bool {
        &&& 0 <= i < self.devices@.len()
        &&& self.both_roles(i)
        &&& forall|j: int| 0 <= j < i ==> !#[trigger] self.both_roles(j)
    }

    pub open spec fn roles_rule(&self) -> Option<ConfigError> {
        if exists|i: int| self.first_both_roles(i) {
            let i = choose|i: int| self.first_both_roles(i);
            Some(ConfigError::TriggerCannotFollow { id: self.devices@[i].id })
        } else {
            None
        }
    }

    /// Device `i` has the id of an earlier device.
    pub open spec fn id_repeated(&self, i: int) -> bool {
        exists|j: int| 0 <= j < i && (#[trigger] self.devices@[j].id)@ == self.devices@[i].id@
    }

    pub open spec fn first_id_repeat(&self, i: int) -> bool {
        &&& 0 <= i < self.devices@.len()
        &&& self.id_repeated(i)
        &&& forall|j: int| 0 <= j < i ==> !#[trigger] self.id_repeated(j)
    }

    pub open spec fn id_rule(&self) -> Option<ConfigError> {
        if exists|i: int| self.first_id_repeat(i) {
            let i = choose|i: int| self.first_id_repeat(i);
            Some(ConfigError::DuplicateDevice { id: self.devices@[i].id })
        } else {
            None
        }
    }

    /// What is wrong with device `d`'s exit, if anything.
    pub open spec fn exit_error(&self, d: DeviceConfig) -> Option<ConfigError> {
        match d.leave_to {
            Some(host) => if !self.declares(host) {
                Some(ConfigError::LeaveToNotDeclared { device: d.id, host })
            } else if host == self.this_host {
                Some(ConfigError::LeaveToIsThisHost { device: d.id, host })
            } else {
                None
            },
            None => if d.is_trigger && self.hosts@.len() > 2 {
                Some(ConfigError::MissingLeaveTo { device: d.id })
            } else {
                None
            },
        }
    }

    pub open spec fn exit_wrong(&self, i: int) -> bool {
        self.exit_error(self.devices@[i]) is Some
    }

    pub open spec fn first_exit_wrong(&self, i: int) -> bool {
        &&& 0 <= i < self.devices@.len()
        &&& self.exit_wrong(i)
        &&& forall|j: int| 0 <= j < i ==> !#[trigger] self.exit_wrong(j)
    }

    pub open spec fn exit_rule(&self) -> Option<ConfigError> {
        if exists|i: int| self.first_exit_wrong(i) {
            let i = choose|i: int| self.first_exit_wrong(i);
            self.exit_error(self.devices@[i])
        } else {
            None
        }
    }

    /// Everything the coordinator and the plan builder assume, checked in
    /// this order; the first broken rule is the error.
    pub open spec fn spec_validate(&self) -> Result<(), ConfigError> {
        if !self.declares(self.this_host) {
            Err(ConfigError::ThisHostNotDeclared(self.this_host))
        } else if self.input_rule() is Some {
            Err(self.input_rule()->0)
        } else if self.uuid_rule() is Some {
            Err(self.uuid_rule()->0)
        } else if self.name_rule() is Some {
            Err(self.name_rule()->0)
        } else if self.timing.cooldown_ms < MIN_COOLDOWN_MS {
            Err(ConfigError::CooldownTooShort { ms: self.timing.cooldown_ms })
        } else if self.timing.debounce_ms < MIN_DEBOUNCE_MS {
            Err(ConfigError::DebounceTooShort { ms: self.timing.debounce_ms })
        } else if !self.has_trigger() {
            Err(ConfigError::NoTriggerDevice)
        } else if !self.has_follower() {
            Err(ConfigError::NoFollowDevice)
        } else if self.roles_rule() is Some {
            Err(self.roles_rule()->0)
        } else if self.id_rule() is Some {
            Err(self.id_rule()->0)
        } else if self.exit_rule() is Some {
            Err(self.exit_rule()->0)
        } else {
            Ok(())
        }
    }

    /// A config that passed [`Config::validate`].
    pub open spec fn valid(&self) -> bool {
        self.spec_validate() is Ok
    }

    /// Device `i` is the first one whose id spells `id`.
    pub open spec fn first_with_id(&self, id: Seq<char>, i: int) -> bool {
        &&& 0 <= i < self.devices@.len()
        &&& self.devices@[i].id@ == id
        &&& forall|j: int| 0 <= j < i ==> (#[trigger] self.devices@[j].id)@ != id
    }

    /// The first device whose id spells `id`, as an index.
    pub open spec fn device_index(&self, id: Seq<char>) -> Option<int> {
        if exists|i: int| self.first_with_id(id, i) {
            Some(choose|i: int| self.first_with_id(id, i))
        } else {
            None
        }
    }

    /// The configuration of the first device whose id spells `id`.
    pub open spec fn spec_device(&self, id: Seq<char>) -> Option<DeviceConfig> {
        match self.device_index(id) {
            Some(i) => Some(self.devices@[i]),
            None => None,
        }
    }
}

impl Config {
    /// Is `index` one of the declared host slots? Nothing may be switched to a
    /// slot that is not (an undeclared slot may be unpaired).
    pub fn has_host(&self, index: HostIndex) -> (r: bool)
        ensures
            r == self.declares(index),
    {
        let mut i: usize = 0;
        while i < self.hosts.len()
            invariant
                i <= self.hosts@.len(),
                forall|j: int| 0 <= j < i ==> (#[trigger] self.hosts@[j]).index != index,
            decreases self.hosts@.len() - i,
        {
            if self.hosts[i].index == index {
                return true;
            }
            i = i + 1;
        }
        false
    }

    /// The first device configured under `id`.
    pub fn device(&self, id: &DeviceId) -> (r: Option<&DeviceConfig>)
        ensures
            match r {
                Some(d) => self.spec_device(id@) == Some(*d),
                None => self.spec_device(id@) is None,
            },
    {
        let mut i: usize = 0;
        while i < self.devices.len()
            invariant
                i <= self.devices@.len(),
                forall|j: int| 0 <= j < i ==> (#[trigger] self.devices@[j].id)@ != id@,
            decreases self.devices@.len() - i,
        {
            if self.devices[i].id.same(id) {
                proof {
                    assert(self.first_with_id(id@, i as int));
                    let c = choose|c: int| self.first_with_id(id@, c);
                    if c < i {
                        assert((self.devices@[c].id)@ != id@);
                    } else if c > i {
                        assert((self.devices@[i as int].id)@ != id@);
                    }
                }
                return Some(&self.devices[i]);
            }
            i = i + 1;
        }
        None
    }
}

impl Config {
    /// The input rule: every display has an input for every host, and no two
    /// hosts share one on the same display.
    fn check_inputs(&self) -> (r: Option<ConfigError>)
        ensures
            r == self.input_rule(),
    {
        let mut d: usize = 0;
        while d < self.displays.len()
            invariant
                d <= self.displays@.len(),
                forall|e: int, g: int|
                    0 <= e < d && 0 <= g < self.hosts@.len() ==> !#[trigger] self.input_clash(e, g),
            decreases self.displays@.len() - d,
        {
            let display = &self.displays[d];
            let mut h: usize = 0;
            while h < self.hosts.len()
                invariant
                    d < self.displays@.len(),
                    *display == self.displays@[d as int],
                    h <= self.hosts@.len(),
                    forall|e: int, g: int|
                        0 <= e < d && 0 <= g < self.hosts@.len() ==> !#[trigger] self.input_clash(
                            e,
                            g,
                        ),
                    forall|g: int| 0 <= g < h ==> !#[trigger] self.input_clash(d as int, g),
                decreases self.hosts@.len() - h,
            {
                let host = self.hosts[h].index;
                let code = display.input_for(host);
                let mut clash: Option<usize> = None;
                match code {
                    None => {},
                    Some(c) => {
                        let mut k: usize = 0;
                        while k < h
                            invariant_except_break
                                clash is None,
                            invariant
                                d < self.displays@.len(),
                                h < self.hosts@.len(),
                                *display == self.displays@[d as int],
                                k <= h,
                                code == self.input_at(d as int, h as int),
                                code == Some(c),
                                forall|j: int| 0 <= j < k ==> !#[trigger] self.shares_input(d as int, j, h as int),
                            ensures
                                clash matches Some(kk) ==> kk < h && self.shares_input(d as int, kk as int, h as int),
                                clash is None ==> forall|j: int| 0 <= j < h ==> !#[trigger] self.shares_input(d as int, j, h as int),
                            decreases h - k,
                        {
                            match display.input_for(self.hosts[k].index) {
                                Some(other) => {
                                    if other == c {
                                        clash = Some(k);
                                        break;
                                    }
                                },
                                None => {},
                            }
                            k = k + 1;
                        }
                    },
                }
                if code.is_none() || clash.is_some() {
                    proof {
                        assert(self.input_clash(d as int, h as int));
                        assert(self.first_input_clash(d as int, h as int));
                        let (d2, h2) = choose|d2: int, h2: int| self.first_input_clash(d2, h2);
                        if d2 < d || (d2 == d && h2 < h) {
                            assert(!self.input_clash(d2, h2));
                        } else if d2 > d || (d2 == d && h2 > h) {
                            assert(!self.input_clash(d as int, h as int));
                        }
                        assert(d2 == d && h2 == h);
                    }
                    let name = display.name.clone();
                    match clash {
                        None => {
                            return Some(ConfigError::MissingInput { display: name, host });
                        },
                        Some(k) => {
                            let c = code.unwrap();
                            proof {
                                assert(self.shares_input(d as int, k as int, h as int));
                                let k2 = choose|k2: int| self.shares_input(d as int, k2, h as int);
                                if k2 < k {
                                    assert(self.shares_input(d as int, k2, k as int));
                                    assert(self.input_clash(d as int, k as int));
                                } else if k2 > k {
                                    assert(self.shares_input(d as int, k as int, k2));
                                    assert(self.input_clash(d as int, k2));
                                }
                            }
                            return Some(
                                ConfigError::DuplicateDisplayInput {
                                    display: name,
                                    first: self.hosts[k].index,
                                    second: host,
                                    code: c,
                                },
                            );
                        },
                    }
                }
                h = h + 1;
            }
            d = d + 1;
        }
        assert forall|d2: int, h2: int| !self.first_input_clash(d2, h2) by {
            if 0 <= d2 < self.displays@.len() && 0 <= h2 < self.hosts@.len() {
                assert(!self.input_clash(d2, h2));
            }
        }
        None
    }
}

impl Config {
    /// Does display `i` repeat an earlier display's EDID UUID?
    fn uuid_repeated_at(&self, i: usize) -> (r: bool)
        requires
            i < self.displays@.len(),
        ensures
            r == self.uuid_repeated(i as int),
    {
        let mine = chars_of(self.displays[i].edid_uuid.as_str());
        if mine.len() == 0 {
            return false;
        }
        let mut j: usize = 0;
        while j < i
            invariant
                j <= i < self.displays@.len(),
                mine@ == self.displays@[i as int].edid_uuid@,
                mine@.len() > 0,
                forall|k: int|
                    0 <= k < j ==> !(self.displays@[k].edid_uuid@.len() > 0 && ascii_lower(
                        #[trigger] self.displays@[k].edid_uuid@,
                    ) == ascii_lower(self.displays@[i as int].edid_uuid@)),
            decreases i - j,
        {
            let theirs = chars_of(self.displays[j].edid_uuid.as_str());
            if theirs.len() > 0 && eq_ignore_ascii_case(&theirs, &mine) {
                assert(0 <= j < i && self.displays@[j as int].edid_uuid@.len() > 0 && ascii_lower(
                    self.displays@[j as int].edid_uuid@,
                ) == ascii_lower(self.displays@[i as int].edid_uuid@));
                return true;
            }
            j = j + 1;
        }
        false
    }

    fn check_uuids(&self) -> (r: Option<ConfigError>)
        ensures
            r == self.uuid_rule(),
    {
        let mut i: usize = 0;
        while i < self.displays.len()
            invariant
                i <= self.displays@.len(),
                forall|j: int| 0 <= j < i ==> !#[trigger] self.uuid_repeated(j),
            decreases self.displays@.len() - i,
        {
            if self.uuid_repeated_at(i) {
                proof {
                    assert(self.first_uuid_repeat(i as int));
                    let c = choose|c: int| self.first_uuid_repeat(c);
                    if c < i {
                        assert(!self.uuid_repeated(c));
                    } else if c > i {
                        assert(!self.uuid_repeated(i as int));
                    }
                }
                return Some(ConfigError::DuplicateDisplay { edid_uuid: self.displays[i].edid_uuid.clone() });
            }
            i = i + 1;
        }
        assert forall|c: int| !self.first_uuid_repeat(c) by {
            if 0 <= c < self.displays@.len() {
                assert(!self.uuid_repeated(c));
            }
        }
        None
    }

    /// Does display `i`'s trimmed name repeat an earlier one's?
    fn name_repeated_at(&self, i: usize) -> (r: bool)
        requires
            i < self.displays@.len(),
        ensures
            r == self.name_repeated(i as int),
    {
        let mine = chars_of(self.displays[i].name.as_str());
        let (mlo, mhi) = trim_bounds(&mine, 0, mine.len());
        assert(mine@.subrange(0, mine@.len() as int) == mine@);
        let mut j: usize = 0;
        while j < i
            invariant
                j <= i < self.displays@.len(),
                mlo <= mhi <= mine@.len(),
                mine@.subrange(mlo as int, mhi as int) == trimmed(self.displays@[i as int].name@),
                forall|k: int|
                    0 <= k < j ==> trimmed(#[trigger] self.displays@[k].name@) != trimmed(
                        self.displays@[i as int].name@,
                    ),
            decreases i - j,
        {
            let theirs = chars_of(self.displays[j].name.as_str());
            let (tlo, thi) = trim_bounds(&theirs, 0, theirs.len());
            assert(theirs@.subrange(0, theirs@.len() as int) == theirs@);
            if range_eq(&theirs, tlo, thi, &mine, mlo, mhi) {
                return true;
            }
            j = j + 1;
        }
        false
    }

    fn check_names(&self) -> (r: Option<ConfigError>)
        ensures
            r == self.name_rule(),
    {
        let mut i: usize = 0;
        while i < self.displays.len()
            invariant
                i <= self.displays@.len(),
                forall|j: int| 0 <= j < i ==> !#[trigger] self.name_repeated(j),
            decreases self.displays@.len() - i,
        {
            if self.name_repeated_at(i) {
                proof {
                    assert(self.first_name_repeat(i as int));
                    let c = choose|c: int| self.first_name_repeat(c);
                    if c < i {
                        assert(!self.name_repeated(c));
                    } else if c > i {
                        assert(!self.name_repeated(i as int));
                    }
                }
                return Some(ConfigError::DuplicateDisplayName { name: self.displays[i].name.clone() });
            }
            i = i + 1;
        }
        assert forall|c: int| !self.first_name_repeat(c) by {
            if 0 <= c < self.displays@.len() {
                assert(!self.name_repeated(c));
            }
        }
        None
    }

    fn any_trigger(&self) -> (r: bool)
        ensures
            r == self.has_trigger(),
    {
        let mut i: usize = 0;
        while i < self.devices.len()
            invariant
                i <= self.devices@.len(),
                forall|j: int| 0 <= j < i ==> !(#[trigger] self.devices@[j]).is_trigger,
            decreases self.devices@.len() - i,
        {
            if self.devices[i].is_trigger {
                return true;
            }
            i = i + 1;
        }
        false
    }

    fn any_follower(&self) -> (r: bool)
        ensures
            r == self.has_follower(),
    {
        let mut i: usize = 0;
        while i < self.devices.len()
            invariant
                i <= self.devices@.len(),
                forall|j: int| 0 <= j < i ==> !(#[trigger] self.devices@[j]).follow,
            decreases self.devices@.len() - i,
        {
            if self.devices[i].follow {
                return true;
            }
            i = i + 1;
        }
        false
    }

    fn check_roles(&self) -> (r: Option<ConfigError>)
        ensures
            r == self.roles_rule(),
    {
        let mut i: usize = 0;
        while i < self.devices.len()
            invariant
                i <= self.devices@.len(),
                forall|j: int| 0 <= j < i ==> !#[trigger] self.both_roles(j),
            decreases self.devices@.len() - i,
        {
            if self.devices[i].is_trigger && self.devices[i].follow {
                proof {
                    assert(self.first_both_roles(i as int));
                    let c = choose|c: int| self.first_both_roles(c);
                    if c < i {
                        assert(!self.both_roles(c));
                    } else if c > i {
                        assert(!self.both_roles(i as int));
                    }
                }
                return Some(ConfigError::TriggerCannotFollow { id: self.devices[i].id.copied() });
            }
            i = i + 1;
        }
        assert forall|c: int| !self.first_both_roles(c) by {
            if 0 <= c < self.devices@.len() {
                assert(!self.both_roles(c));
            }
        }
        None
    }

    fn id_repeated_at(&self, i: usize) -> (r: bool)
        requires
            i < self.devices@.len(),
        ensures
            r == self.id_repeated(i as int),
    {
        let mut j: usize = 0;
        while j < i
            invariant
                j <= i < self.devices@.len(),
                forall|k: int| 0 <= k < j ==> (#[trigger] self.devices@[k].id)@ != self.devices@[i as int].id@,
            decreases i - j,
        {
            if self.devices[j].id.same(&self.devices[i].id) {
                return true;
            }
            j = j + 1;
        }
        false
    }

    fn check_ids(&self) -> (r: Option<ConfigError>)
        ensures
            r == self.id_rule(),
    {
        let mut i: usize = 0;
        while i < self.devices.len()
            invariant
                i <= self.devices@.len(),
                forall|j: int| 0 <= j < i ==> !#[trigger] self.id_repeated(j),
            decreases self.devices@.len() - i,
        {
            if self.id_repeated_at(i) {
                proof {
                    assert(self.first_id_repeat(i as int));
                    let c = choose|c: int| self.first_id_repeat(c);
                    if c < i {
                        assert(!self.id_repeated(c));
                    } else if c > i {
                        assert(!self.id_repeated(i as int));
                    }
                }
                return Some(ConfigError::DuplicateDevice { id: self.devices[i].id.copied() });
            }
            i = i + 1;
        }
        assert forall|c: int| !self.first_id_repeat(c) by {
            if 0 <= c < self.devices@.len() {
                assert(!self.id_repeated(c));
            }
        }
        None
    }

    /// What is wrong with device `i`'s exit, if anything.
    fn exit_error_at(&self, i: usize) -> (r: Option<ConfigError>)
        requires
            i < self.devices@.len(),
        ensures
            r == self.exit_error(self.devices@[i as int]),
    {
        let device = &self.devices[i];
        match device.leave_to {
            Some(host) => {
                if !self.has_host(host) {
                    Some(ConfigError::LeaveToNotDeclared { device: device.id.copied(), host })
                } else if host == self.this_host {
                    Some(ConfigError::LeaveToIsThisHost { device: device.id.copied(), host })
                } else {
                    None
                }
            },
            None => {
                if device.is_trigger && self.hosts.len() > 2 {
                    Some(ConfigError::MissingLeaveTo { device: device.id.copied() })
                } else {
                    None
                }
            },
        }
    }

    fn check_exits(&self) -> (r: Option<ConfigError>)
        ensures
            r == self.exit_rule(),
    {
        let mut i: usize = 0;
        while i < self.devices.len()
            invariant
                i <= self.devices@.len(),
                forall|j: int| 0 <= j < i ==> !#[trigger] self.exit_wrong(j),
            decreases self.devices@.len() - i,
        {
            let error = self.exit_error_at(i);
            if error.is_some() {
                proof {
                    assert(self.first_exit_wrong(i as int));
                    let c = choose|c: int| self.first_exit_wrong(c);
                    if c < i {
                        assert(!self.exit_wrong(c));
                    } else if c > i {
                        assert(!self.exit_wrong(i as int));
                    }
                }
                return error;
            }
            i = i + 1;
        }
        assert forall|c: int| !self.first_exit_wrong(c) by {
            if 0 <= c < self.devices@.len() {
                assert(!self.exit_wrong(c));
            }
        }
        None
    }

    /// Rejects everything the coordinator and the plan builder assume, the
    /// first broken rule first.
    pub fn validate(&self) -> (r: Result<(), ConfigError>)
        ensures
            r == self.spec_validate(),
    {
        if !self.has_host(self.this_host) {
            return Err(ConfigError::ThisHostNotDeclared(self.this_host));
        }
        if let Some(error) = self.check_inputs() {
            return Err(error);
        }
        if let Some(error) = self.check_uuids() {
            return Err(error);
        }
        if let Some(error) = self.check_names() {
            return Err(error);
        }
        if self.timing.cooldown_ms < MIN_COOLDOWN_MS {
            return Err(ConfigError::CooldownTooShort { ms: self.timing.cooldown_ms });
        }
        if self.timing.debounce_ms < MIN_DEBOUNCE_MS {
            return Err(ConfigError::DebounceTooShort { ms: self.timing.debounce_ms });
        }
        if !self.any_trigger() {
            return Err(ConfigError::NoTriggerDevice);
        }
        if !self.any_follower() {
            return Err(ConfigError::NoFollowDevice);
        }
        if let Some(error) = self.check_roles() {
            return Err(error);
        }
        if let Some(error) = self.check_ids() {
            return Err(error);
        }
        if let Some(error) = self.check_exits() {
            return Err(error);
        }
        Ok(())
    }
}

/// A config adopted on another machine is usable there: adopting a valid
/// config, once the host and the exit are accepted, leaves it valid.
pub proof fn lemma_adopted_config_is_valid(
    before: Config,
    after: Config,
    this_host: HostIndex,
    leave_to: Option<HostIndex>,
)
    requires
        before.valid(),
        before.adopted_exit(this_host, leave_to) is Ok,
        after.this_host == this_host,
        after.devices@ == before.adopted_devices(before.adopted_exit(this_host, leave_to)->Ok_0),
        after.hosts@ == before.hosts@,
        after.displays@ == before.displays@,
        after.timing == before.timing,
    ensures
        after.valid(),
{
    let exit = before.adopted_exit(this_host, leave_to)->Ok_0;
    // The exit is a declared host other than this one.
    assert(before.declares(exit) && exit != this_host) by {
        if leave_to is None {
            let k = choose|k: int| before.only_other(this_host, k);
            assert(before.hosts@[k].index == exit);
        }
    }
    assert(after.declares(this_host)) by {
        let i = choose|i: int| 0 <= i < before.hosts@.len() && #[trigger] before.hosts@[i].index == this_host;
        assert(after.hosts@[i].index == this_host);
    }
    // What only the hosts and the displays decide is what it was.
    assert forall|d: int, h: int| #[trigger] after.input_clash(d, h) == before.input_clash(d, h) by {
        assert(after.input_at(d, h) == before.input_at(d, h));
        if exists|k: int| #[trigger] after.shares_input(d, k, h) {
            let k = choose|k: int| #[trigger] after.shares_input(d, k, h);
            assert(after.input_at(d, k) == before.input_at(d, k));
            assert(before.shares_input(d, k, h));
        }
        if exists|k: int| #[trigger] before.shares_input(d, k, h) {
            let k = choose|k: int| #[trigger] before.shares_input(d, k, h);
            assert(after.input_at(d, k) == before.input_at(d, k));
            assert(after.shares_input(d, k, h));
        }
    }
    assert(!exists|d: int, h: int| after.first_input_clash(d, h)) by {
        if exists|d: int, h: int| after.first_input_clash(d, h) {
            let (d, h) = choose|d: int, h: int| after.first_input_clash(d, h);
            assert forall|e: int, g: int|
                0 <= e < before.displays@.len() && 0 <= g < before.hosts@.len() && (e < d || (e == d
                    && g < h)) implies !#[trigger] before.input_clash(e, g) by {
                assert(!after.input_clash(e, g));
            }
            assert(after.input_clash(d, h));
            assert(before.first_input_clash(d, h));
        }
    }
    assert forall|i: int| #[trigger] after.uuid_repeated(i) == before.uuid_repeated(i) by {}
    assert(!exists|i: int| after.first_uuid_repeat(i)) by {
        if exists|i: int| after.first_uuid_repeat(i) {
            let i = choose|i: int| after.first_uuid_repeat(i);
            assert forall|j: int| 0 <= j < i implies !#[trigger] before.uuid_repeated(j) by {
                assert(!after.uuid_repeated(j));
            }
            assert(after.uuid_repeated(i));
            assert(before.first_uuid_repeat(i));
        }
    }
    assert forall|i: int| #[trigger] after.name_repeated(i) == before.name_repeated(i) by {}
    assert(!exists|i: int| after.first_name_repeat(i)) by {
        if exists|i: int| after.first_name_repeat(i) {
            let i = choose|i: int| after.first_name_repeat(i);
            assert forall|j: int| 0 <= j < i implies !#[trigger] before.name_repeated(j) by {
                assert(!after.name_repeated(j));
            }
            assert(after.name_repeated(i));
            assert(before.first_name_repeat(i));
        }
    }
    // Roles and ids are untouched; only the exits moved.
    assert forall|i: int| 0 <= i < after.devices@.len() implies {
        &&& (#[trigger] after.devices@[i]).is_trigger == before.devices@[i].is_trigger
        &&& after.devices@[i].follow == before.devices@[i].follow
        &&& after.devices@[i].id == before.devices@[i].id
    } by {}
    assert(after.has_trigger()) by {
        let i = choose|i: int| 0 <= i < before.devices@.len() && #[trigger] before.devices@[i].is_trigger;
        assert(after.devices@[i].is_trigger);
    }
    assert(after.has_follower()) by {
        let i = choose|i: int| 0 <= i < before.devices@.len() && #[trigger] before.devices@[i].follow;
        assert(after.devices@[i].follow);
    }
    assert(!exists|i: int| after.first_both_roles(i)) by {
        if exists|i: int| after.first_both_roles(i) {
            let i = choose|i: int| after.first_both_roles(i);
            assert forall|j: int| 0 <= j < i implies !#[trigger] before.both_roles(j) by {
                assert(!after.both_roles(j));
            }
            assert(before.first_both_roles(i));
        }
    }
    assert forall|i: int| 0 <= i < after.devices@.len() implies #[trigger] after.id_repeated(i) == before.id_repeated(i) by {
        if after.id_repeated(i) {
            let j = choose|j: int| 0 <= j < i && (#[trigger] after.devices@[j].id)@ == after.devices@[i].id@;
            assert(before.devices@[j].id@ == before.devices@[i].id@);
        }
        if before.id_repeated(i) {
            let j = choose|j: int| 0 <= j < i && (#[trigger] before.devices@[j].id)@ == before.devices@[i].id@;
            assert(after.devices@[j].id@ == after.devices@[i].id@);
        }
    }
    assert(!exists|i: int| after.first_id_repeat(i)) by {
        if exists|i: int| after.first_id_repeat(i) {
            let i = choose|i: int| after.first_id_repeat(i);
            assert forall|j: int| 0 <= j < i implies !#[trigger] before.id_repeated(j) by {
                assert(!after.id_repeated(j));
            }
            assert(before.first_id_repeat(i));
        }
    }
    // Every trigger now leaves to the exit, and no follower leaves at all.
    assert(!exists|i: int| after.first_exit_wrong(i)) by {
        if exists|i: int| after.first_exit_wrong(i) {
            let i = choose|i: int| after.first_exit_wrong(i);
            let d = after.devices@[i];
            if d.is_trigger {
                assert(d.leave_to == Some(exit));
                let k = choose|k: int| 0 <= k < before.hosts@.len() && #[trigger] before.hosts@[k].index == exit;
                assert(after.hosts@[k].index == exit);
            }
        }
    }
}

impl Config {
    /// The `k`-th host is not `this_host`.
    pub open spec fn other_host(&self, this_host: HostIndex, k: int) -> bool {
        0 <= k < self.hosts@.len() && self.hosts@[k].index != this_host
    }

    /// Exactly one host entry is not `this_host`, and it is the `k`-th.
    pub open spec fn only_other(&self, this_host: HostIndex, k: int) -> bool {
        &&& self.other_host(this_host, k)
        &&& forall|m: int| #[trigger] self.other_host(this_host, m) ==> m == k
    }

    /// Where a trigger leaves to once this config is adopted as `this_host`
    /// with `leave_to`, or why it cannot be adopted.
    pub open spec fn adopted_exit(&self, this_host: HostIndex, leave_to: Option<HostIndex>) -> Result<
        HostIndex,
        ConfigError,
    > {
        if !self.declares(this_host) {
            Err(ConfigError::AdoptUnknownHost { index: this_host })
        } else {
            match leave_to {
                Some(index) => if !self.declares(index) {
                    Err(ConfigError::AdoptUnknownHost { index })
                } else if index == this_host {
                    Err(ConfigError::AdoptLeaveToIsThisHost)
                } else {
                    Ok(index)
                },
                None => if exists|k: int| self.only_other(this_host, k) {
                    Ok(self.hosts@[choose|k: int| self.only_other(this_host, k)].index)
                } else {
                    Err(ConfigError::AdoptLeaveToRequired)
                },
            }
        }
    }

    /// The devices once every trigger leaves to `exit` and no follower has an
    /// exit at all.
    pub open spec fn adopted_devices(&self, exit: HostIndex) -> Seq<DeviceConfig> {
        Seq::new(
            self.devices@.len(),
            |i: int|
                DeviceConfig {
                    leave_to: if self.devices@[i].is_trigger {
                        Some(exit)
                    } else {
                        None
                    },
                    ..self.devices@[i]
                },
        )
    }

    /// Turns a config exported from another machine into this machine's.
    ///
    /// Only two things differ between the machines sharing one keyboard: which
    /// host this one is, and where a trigger device goes when it leaves. This
    /// writes those two and nothing else. `leave_to` may be `None` only with
    /// exactly two hosts, where the answer is the other one.
    pub fn adopt(&mut self, this_host: HostIndex, leave_to: Option<HostIndex>) -> (r: Result<
        (),
        ConfigError,
    >)
        ensures
            match old(self).adopted_exit(this_host, leave_to) {
                Ok(exit) => {
                    &&& r is Ok
                    &&& final(self).this_host == this_host
                    &&& final(self).devices@ == old(self).adopted_devices(exit)
                    &&& final(self).schema_version == old(self).schema_version
                    &&& final(self).hosts == old(self).hosts
                    &&& final(self).displays == old(self).displays
                    &&& final(self).timing == old(self).timing
                    &&& final(self).hotkeys == old(self).hotkeys
                    &&& final(self).options == old(self).options
                    &&& old(self).tables_wf() ==> final(self).tables_wf()
                },
                Err(e) => r == Err::<(), ConfigError>(e) && *final(self) == *old(self),
            },
    {
        if !self.has_host(this_host) {
            return Err(ConfigError::AdoptUnknownHost { index: this_host });
        }
        let exit = match leave_to {
            Some(index) => {
                if !self.has_host(index) {
                    return Err(ConfigError::AdoptUnknownHost { index });
                }
                if index == this_host {
                    return Err(ConfigError::AdoptLeaveToIsThisHost);
                }
                index
            },
            None => {
                let mut first: Option<usize> = None;
                let mut i: usize = 0;
                while i < self.hosts.len()
                    invariant
                        i <= self.hosts@.len(),
                        self.declares(this_host),
                        leave_to is None,
                        match first {
                            None => forall|m: int| 0 <= m < i ==> !#[trigger] self.other_host(this_host, m),
                            Some(k) => k < i && self.other_host(this_host, k as int) && forall|m: int|
                                0 <= m < i && #[trigger] self.other_host(this_host, m) ==> m == k,
                        },
                    decreases self.hosts@.len() - i,
                {
                    if self.hosts[i].index != this_host {
                        if first.is_some() {
                            proof {
                                let k = first->0;
                                assert(self.other_host(this_host, k as int));
                                assert(self.other_host(this_host, i as int));
                                assert forall|j: int| !self.only_other(this_host, j) by {
                                    if self.only_other(this_host, j) {
                                        assert(k == j);
                                        assert(i == j);
                                    }
                                }
                                assert(self.adopted_exit(this_host, leave_to) == Err::<HostIndex, ConfigError>(ConfigError::AdoptLeaveToRequired));
                            }
                            return Err(ConfigError::AdoptLeaveToRequired);
                        }
                        first = Some(i);
                    }
                    i = i + 1;
                }
                match first {
                    None => {
                        assert forall|j: int| !self.only_other(this_host, j) by {}
                        return Err(ConfigError::AdoptLeaveToRequired);
                    },
                    Some(k) => {
                        proof {
                            assert(self.only_other(this_host, k as int));
                            let c = choose|c: int| self.only_other(this_host, c);
                            assert(self.other_host(this_host, k as int));
                            assert(c == k);
                        }
                        self.hosts[k].index
                    },
                }
            },
        };
        let ghost before = *self;
        let mut devices: Vec<DeviceConfig> = Vec::new();
        let mut i: usize = 0;
        while i < self.devices.len()
            invariant
                *self == before,
                i <= self.devices@.len(),
                devices@ == before.adopted_devices(exit).take(i as int),
            decreases self.devices@.len() - i,
        {
            let leave = if self.devices[i].is_trigger {
                Some(exit)
            } else {
                None
            };
            let device = self.devices[i].with_leave_to(leave);
            devices.push(device);
            assert(before.adopted_devices(exit).take(i + 1) == before.adopted_devices(exit).take(
                i as int,
            ).push(device));
            i = i + 1;
        }
        assert(before.adopted_devices(exit).take(before.devices@.len() as int)
            == before.adopted_devices(exit));
        self.this_host = this_host;
        self.devices = devices;
        Ok(())
    }
}

} // verus!
