//! The menu bar menu and icon, worked out from the core's status. Turning the
//! rows into platform menu items, and the icon choice into image bytes,
//! belongs to the platform layer.

use vstd::prelude::*;

use crate::config::LANG_EN;
use crate::runtime::Status;
use crate::text::{concat, decimal, decimal_text, parse_uint, chars_of, str_eq, range_eq};

verus! {

pub const MENU_ID_STATUS: &'static str = "status";
/// `switch:<host index>`; the index is the HID++ slot, not the channel number.
pub const MENU_ID_SWITCH_PREFIX: &'static str = "switch:";
pub const MENU_ID_SETTINGS: &'static str = "settings";
pub const MENU_ID_LOG: &'static str = "log";
pub const MENU_ID_QUIT: &'static str = "quit";

/// One line of the menu, before it becomes a platform menu item.
#[derive(Clone, Debug, PartialEq, Eq)]
pub enum Row {
    Separator,
    Item { id: String, label: String, enabled: bool },
}

impl Row {
    pub fn item(id: &str, label: &str, enabled: bool) -> (r: Row)
        ensures
            r matches Row::Item { id: i, label: l, enabled: e } && i@ == id@ && l@ == label@ && e == enabled,
    {
        Row::Item { id: id.to_owned(), label: label.to_owned(), enabled }
    }
}

/// A row as text: a separator, or an item's id, label and whether it is
/// enabled.
pub enum RowText {
    Separator,
    Item(Seq<char>, Seq<char>, bool),
}

pub open spec fn row_text(r: Row) -> RowText {
    match r {
        Row::Separator => RowText::Separator,
        Row::Item { id, label, enabled } => RowText::Item(id@, label@, enabled),
    }
}

/// The menu speaks English only when the status says so; any other tag,
/// including one neither UI has strings for, falls back to Chinese, so the
/// window and the menu cannot end up speaking different languages.
pub open spec fn english(status: Status) -> bool {
    status.language@ == LANG_EN@
}

pub open spec fn spec_pick(status: Status, zh_hans: Seq<char>, en: Seq<char>) -> Seq<char> {
    if english(status) {
        en
    } else {
        zh_hans
    }
}

fn pick(status: &Status, zh_hans: &'static str, en: &'static str) -> (r: &'static str)
    ensures
        r@ == spec_pick(*status, zh_hans@, en@),
{
    if str_eq(status.language, LANG_EN) {
        en
    } else {
        zh_hans
    }
}

/// What the state line says for each state the core names; an unknown state
/// is shown by its own name rather than not at all.
pub open spec fn spec_state_label(status: Status) -> Seq<char> {
    let s = status.state@;
    if s == "Idle"@ {
        spec_pick(status, "就绪"@, "Ready"@)
    } else if s == "Confirming"@ {
        spec_pick(status, "正在确认键盘是否真的走了…"@, "Checking whether the keyboard really left…"@)
    } else if s == "Switching"@ {
        spec_pick(status, "正在切换…"@, "Switching…"@)
    } else if s == "Cooldown"@ {
        spec_pick(status, "刚切换过，几秒内不响应"@, "Just switched; ignoring triggers for a few seconds"@)
    } else if s == "Unconfigured"@ {
        spec_pick(status, "未配置，点下面「设置向导…」"@, "Not configured — start the setup below"@)
    } else {
        s
    }
}

fn state_label(status: &Status) -> (r: &str)
    ensures
        r@ == spec_state_label(*status),
{
    let s = status.state.as_str();
    if str_eq(s, "Idle") {
        pick(status, "就绪", "Ready")
    } else if str_eq(s, "Confirming") {
        pick(status, "正在确认键盘是否真的走了…", "Checking whether the keyboard really left…")
    } else if str_eq(s, "Switching") {
        pick(status, "正在切换…", "Switching…")
    } else if str_eq(s, "Cooldown") {
        pick(status, "刚切换过，几秒内不响应", "Just switched; ignoring triggers for a few seconds")
    } else if str_eq(s, "Unconfigured") {
        pick(status, "未配置，点下面「设置向导…」", "Not configured — start the setup below")
    } else {
        s
    }
}

/// What the status line says. A missing permission is otherwise only visible
/// as a different icon, so the line says it — but an unusable config comes
/// first: it is the thing to fix, and its own line already points at the
/// settings window.
pub open spec fn spec_status_label(status: Status) -> Seq<char> {
    if status.config_ok && !status.input_monitoring {
        spec_pick(status, "缺少「输入监控」权限，点下面「设置」"@, "Input Monitoring is off — open Settings below"@)
    } else {
        spec_state_label(status)
    }
}

fn status_label(status: &Status) -> (r: &str)
    ensures
        r@ == spec_status_label(*status),
{
    if status.config_ok && !status.input_monitoring {
        return pick(status, "缺少「输入监控」权限，点下面「设置」", "Input Monitoring is off — open Settings below");
    }
    state_label(status)
}

/// What the window the settings item opens will actually show: the setup
/// wizard on a Mac with nothing to run on.
pub open spec fn spec_settings_label(status: Status) -> Seq<char> {
    if status.state@ == "Unconfigured"@ {
        spec_pick(status, "设置向导…"@, "Set Relay up…"@)
    } else {
        spec_pick(status, "设置…"@, "Settings…"@)
    }
}

fn settings_label(status: &Status) -> (r: &'static str)
    ensures
        r@ == spec_settings_label(*status),
{
    if str_eq(status.state.as_str(), "Unconfigured") {
        pick(status, "设置向导…", "Set Relay up…")
    } else {
        pick(status, "设置…", "Settings…")
    }
}

/// The label of the entry for host `index` called `name`. The machine we are
/// on is marked rather than removed: clicking it is the one-click rescue that
/// pulls the screen and the following devices back here. The slot is 0-based;
/// only the channel the user sees is one higher.
pub open spec fn spec_host_label(status: Status, index: u8, name: Seq<char>) -> Seq<char> {
    if status.this_host == Some(index) {
        if english(status) {
            name + " (this Mac) ✓"@
        } else {
            name + "（本机）✓"@
        }
    } else {
        let channel = decimal(index as nat + 1);
        if english(status) {
            "Switch to "@ + name + " (channel "@ + channel + ")"@
        } else {
            "切到 "@ + name + "（通道 "@ + channel + "）"@
        }
    }
}

fn host_label(status: &Status, index: u8, name: &str) -> (r: String)
    ensures
        r@ == spec_host_label(*status, index, name@),
{
    let en = str_eq(status.language, LANG_EN);
    if status.this_host == Some(index) {
        if en {
            concat(name, " (this Mac) ✓")
        } else {
            concat(name, "（本机）✓")
        }
    } else {
        let channel = decimal_text(index as u64 + 1);
        let (a, b, c) = if en {
            ("Switch to ", " (channel ", ")")
        } else {
            ("切到 ", "（通道 ", "）")
        };
        let s1 = concat(a, name);
        let s2 = concat(s1.as_str(), b);
        let s3 = concat(s2.as_str(), channel.as_str());
        let r = concat(s3.as_str(), c);
        assert(r@ =~= spec_host_label(*status, index, name@));
        r
    }
}

/// The menu, top to bottom: the status line (disabled), a separator, one
/// entry per declared host followed by a separator when there are any — no
/// hosts means no usable config, and nothing may offer a slot the config does
/// not declare — then settings, log and quit.
pub open spec fn spec_rows(status: Status) -> Seq<RowText> {
    let hosts = status.hosts@;
    let host_rows = Seq::new(
        hosts.len(),
        |k: int|
            RowText::Item(
                MENU_ID_SWITCH_PREFIX@ + decimal(hosts[k].0 as nat),
                spec_host_label(status, hosts[k].0, hosts[k].1@),
                true,
            ),
    );
    let after_hosts = if hosts.len() > 0 {
        seq![RowText::Separator]
    } else {
        Seq::empty()
    };
    seq![
        RowText::Item(MENU_ID_STATUS@, spec_pick(status, "状态："@, "Status: "@) + spec_status_label(status), false),
        RowText::Separator,
    ] + host_rows + after_hosts + seq![
        RowText::Item(MENU_ID_SETTINGS@, spec_settings_label(status), true),
        RowText::Item(MENU_ID_LOG@, spec_pick(status, "日志…"@, "Log…"@), true),
        RowText::Item(MENU_ID_QUIT@, spec_pick(status, "退出"@, "Quit"@), true),
    ]
}

pub fn rows(status: &Status) -> (r: Vec<Row>)
    ensures
        r@.len() == spec_rows(*status).len(),
        forall|i: int| 0 <= i < r@.len() ==> row_text(#[trigger] r@[i]) == spec_rows(*status)[i],
{
    let ghost want = spec_rows(*status);
    let head = concat(pick(status, "状态：", "Status: "), status_label(status));
    let mut rows: Vec<Row> = Vec::new();
    rows.push(Row::Item { id: MENU_ID_STATUS.to_owned(), label: head, enabled: false });
    rows.push(Row::Separator);
    let mut k: usize = 0;
    while k < status.hosts.len()
        invariant
            k <= status.hosts@.len(),
            want == spec_rows(*status),
            rows@.len() == 2 + k,
            forall|i: int| 0 <= i < rows@.len() ==> row_text(#[trigger] rows@[i]) == want[i],
        decreases status.hosts@.len() - k,
    {
        let (index, name) = (status.hosts[k].0, status.hosts[k].1.as_str());
        let n = decimal_text(index as u64);
        let id = concat(MENU_ID_SWITCH_PREFIX, n.as_str());
        let label = host_label(status, index, name);
        rows.push(Row::Item { id, label, enabled: true });
        k = k + 1;
    }
    if status.hosts.len() > 0 {
        rows.push(Row::Separator);
    }
    rows.push(Row::Item { id: MENU_ID_SETTINGS.to_owned(), label: settings_label(status).to_owned(), enabled: true });
    rows.push(Row::Item { id: MENU_ID_LOG.to_owned(), label: pick(status, "日志…", "Log…").to_owned(), enabled: true });
    rows.push(Row::Item { id: MENU_ID_QUIT.to_owned(), label: pick(status, "退出", "Quit").to_owned(), enabled: true });
    rows
}

/// Which menu bar icon the status calls for.
#[derive(Clone, Copy, Debug, PartialEq, Eq)]
pub enum TrayIcon {
    /// Nothing happening.
    Idle,
    /// A switch under way.
    Switching,
    /// Something the user has to deal with: no usable config, or no
    /// permission to read the devices.
    Attention,
}

pub open spec fn spec_icon(status: Status) -> TrayIcon {
    if status.state@ == "Confirming"@ || status.state@ == "Switching"@ {
        TrayIcon::Switching
    } else if !status.config_ok || !status.input_monitoring {
        TrayIcon::Attention
    } else {
        TrayIcon::Idle
    }
}

pub fn icon_for(status: &Status) -> (r: TrayIcon)
    ensures
        r == spec_icon(*status),
{
    let s = status.state.as_str();
    if str_eq(s, "Confirming") || str_eq(s, "Switching") {
        TrayIcon::Switching
    } else if !status.config_ok || !status.input_monitoring {
        TrayIcon::Attention
    } else {
        TrayIcon::Idle
    }
}

/// What a click on a menu item asks for.
#[derive(Clone, Copy, Debug, PartialEq, Eq)]
pub enum MenuAction {
    Quit,
    OpenSettings,
    OpenLog,
    /// Switch to this host slot.
    Switch(u8),
    /// The status line, which is disabled and never fires, or an id this menu
    /// never hands out.
    Nothing,
}

/// The action behind the menu item `id`.
pub open spec fn spec_menu_action(id: Seq<char>) -> MenuAction {
    let prefix = MENU_ID_SWITCH_PREFIX@;
    if id == MENU_ID_QUIT@ {
        MenuAction::Quit
    } else if id == MENU_ID_SETTINGS@ {
        MenuAction::OpenSettings
    } else if id == MENU_ID_LOG@ {
        MenuAction::OpenLog
    } else if id.len() >= prefix.len() && id.subrange(0, prefix.len() as int) == prefix {
        match crate::text::parse_unsigned(id.subrange(prefix.len() as int, id.len() as int), 10, 0xFF) {
            Some(n) => MenuAction::Switch(n as u8),
            None => MenuAction::Nothing,
        }
    } else {
        MenuAction::Nothing
    }
}

pub fn menu_action(id: &str) -> (r: MenuAction)
    ensures
        r == spec_menu_action(id@),
{
    if str_eq(id, MENU_ID_QUIT) {
        return MenuAction::Quit;
    }
    if str_eq(id, MENU_ID_SETTINGS) {
        return MenuAction::OpenSettings;
    }
    if str_eq(id, MENU_ID_LOG) {
        return MenuAction::OpenLog;
    }
    let v = chars_of(id);
    let prefix = chars_of(MENU_ID_SWITCH_PREFIX);
    if v.len() >= prefix.len() && range_eq(&v, 0, prefix.len(), &prefix, 0, prefix.len()) {
        assert(prefix@.subrange(0, prefix@.len() as int) =~= prefix@);
        match parse_uint(&v, prefix.len(), v.len(), 10, 0xFF) {
            Some(n) => MenuAction::Switch(n as u8),
            None => MenuAction::Nothing,
        }
    } else {
        assert(prefix@.subrange(0, prefix@.len() as int) =~= prefix@);
        MenuAction::Nothing
    }
}

} // verus!
