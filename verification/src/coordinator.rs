//! The switch state machine.
//!
//! Synchronous and IO-free: the caller feeds it events with the current time
//! and performs the single [`Action`] it returns. Every hardware action goes
//! through here, so the debounce and the cooldown cannot be bypassed.
//!
//! Time is a count of milliseconds on a monotonic clock the caller owns.

use vstd::prelude::*;

use crate::config::Config;
use crate::plan::{
    lemma_valid_config_plans_every_declared_host, spec_build_plan, spec_target_for_leave,
    target_for_leave,
};
use crate::types::{DeviceId, HostIndex, TriggerEvent};

verus! {

/// Milliseconds on the caller's monotonic clock.
pub type Millis = u64;

#[derive(Clone, Debug, PartialEq, Eq)]
pub enum State {
    Idle,
    /// A trigger device left (or arrived); waiting to see whether it changes
    /// its mind straight away.
    Confirming {
        target: HostIndex,
        trigger: DeviceId,
        deadline: Millis,
        /// Which direction started this debounce. `false`: the trigger left,
        /// so the switch hands this machine over to `target` and the same
        /// device *arriving* cancels it — it never really left. `true`: the
        /// trigger arrived and `target` is `this_host`, so the switch pulls
        /// the screen home; the same device *leaving* starts the leave
        /// sequence afresh. The arrival direction also has to pass the pull
        /// verdict when the timer fires, and may end in `Idle` after all.
        from_arrival: bool,
    },
    Switching {
        target: HostIndex,
        /// The trigger device that bounced back to this machine while the
        /// switch to `target` was running.
        returning: Option<DeviceId>,
    },
    /// Settling after a switch; every trigger is ignored until `until`.
    Cooldown {
        until: Millis,
        /// The switch that just finished handed this machine over to another
        /// host. A switch that targeted `this_host` has nothing to come back
        /// from, so it never arms `returning`.
        away: bool,
        /// The trigger device that came back to this machine during the switch
        /// or the cooldown: when the cooldown ends we switch back to
        /// `this_host` (unless `options.switch_back_on_reconnect` is off).
        /// Only the device that armed it can take it away again.
        returning: Option<DeviceId>,
    },
}

#[derive(Clone, Debug, PartialEq, Eq)]
pub enum Event {
    Trigger(TriggerEvent),
    /// The timer armed by the last [`Action::ArmTimer`] elapsed.
    TimerFired,
    /// The switch started by [`Action::StartSwitch`] ran to completion.
    SwitchFinished,
}

#[derive(Clone, Copy, Debug, PartialEq, Eq)]
pub enum Action {
    ArmTimer(Millis),
    CancelTimer,
    StartSwitch { target: HostIndex, manual: bool },
    /// Nothing to do; the payload says why, for the log.
    Ignore(&'static str),
}

pub struct Coordinator {
    state: State,
    cfg: Config,
    /// Where the last finished switch sent the screen and the following
    /// devices. `None` means this coordinator has not run a switch yet — it
    /// was just started, or rebuilt after a config reload. Deliberately not
    /// persisted: a stale answer from the last run would be worse than none.
    last_target: Option<HostIndex>,
    /// What the runtime saw when it last asked the monitor where the screen
    /// is. `Some(true)`: the display is showing this Mac's input. `None` —
    /// never asked, or the display would not answer — falls back to
    /// `last_target`. One reading decides one pull and then is gone.
    screen_here: Option<bool>,
}

// ---------------------------------------------------------------------------
// The transition relation.
// ---------------------------------------------------------------------------

/// Is `id` configured as a trigger device?
pub open spec fn is_trigger_in(cfg: Config, id: DeviceId) -> bool {
    match cfg.spec_device(id@) {
        Some(d) => d.is_trigger,
        None => false,
    }
}

/// The debounce towards the host `id` leaves to, or `None` when it has
/// nowhere to leave to.
pub open spec fn leave_step(cfg: Config, id: DeviceId, now: Millis) -> Option<(State, Action)> {
    match spec_target_for_leave(&cfg, id@) {
        Some(target) => {
            let deadline = (now + cfg.timing.debounce_ms) as u64;
            Some(
                (
                    State::Confirming { target, trigger: id, deadline, from_arrival: false },
                    Action::ArmTimer(deadline),
                ),
            )
        },
        None => None,
    }
}

/// Why an arrival may not start a pull debounce at all, if it may not.
pub open spec fn pull_refusal(cfg: Config, id: DeviceId) -> Option<&'static str> {
    if !is_trigger_in(cfg, id) {
        Some("not a trigger device")
    } else if !cfg.options.pull_on_arrival {
        Some("pulling on arrival is off")
    } else {
        None
    }
}

/// The arrival debounce expired: why the screen stays where it is, or `None`
/// when it is pulled home. The monitor's answer decides when there is one;
/// without it, only a last switch that sent everything elsewhere does.
pub open spec fn pull_refusal_at_expiry(
    cfg: Config,
    last: Option<HostIndex>,
    screen: Option<bool>,
) -> Option<&'static str> {
    match screen {
        Some(true) => Some("the screen is already here"),
        Some(false) => None,
        None => match last {
            None => Some("no switch to pull back from"),
            Some(target) => if target == cfg.this_host {
                Some("the screen is already here")
            } else {
                None
            },
        },
    }
}

/// `id` arrived: it arms the pending return when it is a trigger device,
/// nothing is armed yet, and there is something to come back from.
pub open spec fn armed(cfg: Config, returning: Option<DeviceId>, id: DeviceId, away: bool) -> Option<
    DeviceId,
> {
    match returning {
        Some(a) => Some(a),
        None => if away && is_trigger_in(cfg, id) {
            Some(id)
        } else {
            None
        },
    }
}

/// `state` with its pending return replaced by `returning`, where it has one.
pub open spec fn with_pending(state: State, returning: Option<DeviceId>) -> State {
    match state {
        State::Switching { target, .. } => State::Switching { target, returning },
        State::Cooldown { until, away, .. } => State::Cooldown { until, away, returning },
        _ => state,
    }
}

/// `id` left: the pending return survives unless `id` armed it.
pub open spec fn disarmed(returning: Option<DeviceId>, id: DeviceId) -> Option<DeviceId> {
    match returning {
        Some(a) => if a@ == id@ {
            None
        } else {
            Some(a)
        },
        None => None,
    }
}

/// Why an event that changes nothing is ignored in `state`.
pub open spec fn idle_reason(state: State) -> &'static str {
    match state {
        State::Idle => "nothing to do while idle",
        State::Confirming { .. } => "waiting out the debounce",
        State::Switching { .. } => "a switch is in progress",
        State::Cooldown { .. } => "cooling down after a switch",
    }
}

/// One transition: the next state, the next `last_target`, the next screen
/// reading and the action, from the current ones, an event and the time.
pub open spec fn step(
    cfg: Config,
    state: State,
    last: Option<HostIndex>,
    screen: Option<bool>,
    ev: Event,
    now: Millis,
) -> (State, Option<HostIndex>, Option<bool>, Action) {
    let debounce_end = (now + cfg.timing.debounce_ms) as u64;
    match (state, ev) {
        (State::Idle, Event::Trigger(TriggerEvent::DeviceLeft(id))) => {
            if is_trigger_in(cfg, id) {
                match leave_step(cfg, id, now) {
                    Some((s, a)) => (s, last, screen, a),
                    None => (State::Idle, last, screen, Action::Ignore("no leave target for trigger")),
                }
            } else {
                (State::Idle, last, screen, Action::Ignore("not a trigger device"))
            }
        },
        (State::Idle, Event::Trigger(TriggerEvent::DeviceArrived(id))) => {
            match pull_refusal(cfg, id) {
                None => (
                    State::Confirming {
                        target: cfg.this_host,
                        trigger: id,
                        deadline: debounce_end,
                        from_arrival: true,
                    },
                    last,
                    screen,
                    Action::ArmTimer(debounce_end),
                ),
                Some(reason) => (State::Idle, last, screen, Action::Ignore(reason)),
            }
        },
        (State::Idle, Event::Trigger(TriggerEvent::Manual { target, .. })) => {
            if cfg.declares(target) {
                (
                    State::Switching { target, returning: None },
                    last,
                    screen,
                    Action::StartSwitch { target, manual: true },
                )
            } else {
                (State::Idle, last, screen, Action::Ignore("target not declared"))
            }
        },
        (
            State::Confirming { target, trigger, deadline, from_arrival },
            Event::Trigger(TriggerEvent::DeviceArrived(id)),
        ) => {
            if id@ == trigger@ && !from_arrival {
                (State::Idle, last, screen, Action::CancelTimer)
            } else {
                (
                    State::Confirming { target, trigger, deadline, from_arrival },
                    last,
                    screen,
                    Action::Ignore(
                        if id@ == trigger@ {
                            "waiting out the debounce"
                        } else {
                            "a different device arrived"
                        },
                    ),
                )
            }
        },
        (
            State::Confirming { target, trigger, deadline, from_arrival },
            Event::Trigger(TriggerEvent::DeviceLeft(id)),
        ) => {
            if id@ == trigger@ && from_arrival {
                match leave_step(cfg, id, now) {
                    Some((s, a)) => (s, last, screen, a),
                    None => (State::Idle, last, screen, Action::CancelTimer),
                }
            } else {
                (
                    State::Confirming { target, trigger, deadline, from_arrival },
                    last,
                    screen,
                    Action::Ignore("waiting out the debounce"),
                )
            }
        },
        (State::Confirming { target, trigger, deadline, from_arrival }, Event::TimerFired) => {
            if now >= deadline {
                let refusal = if from_arrival {
                    pull_refusal_at_expiry(cfg, last, screen)
                } else {
                    None
                };
                let screen_after = if from_arrival {
                    None
                } else {
                    screen
                };
                match refusal {
                    None => (
                        State::Switching { target, returning: None },
                        last,
                        screen_after,
                        Action::StartSwitch { target, manual: false },
                    ),
                    Some(reason) => (State::Idle, last, screen_after, Action::Ignore(reason)),
                }
            } else {
                (
                    State::Confirming { target, trigger, deadline, from_arrival },
                    last,
                    screen,
                    Action::Ignore("timer fired before deadline"),
                )
            }
        },
        (State::Switching { target, returning }, Event::Trigger(TriggerEvent::DeviceArrived(id))) => (
            State::Switching {
                target,
                returning: armed(cfg, returning, id, target != cfg.this_host),
            },
            last,
            screen,
            Action::Ignore("a switch is in progress"),
        ),
        (State::Switching { target, returning }, Event::Trigger(TriggerEvent::DeviceLeft(id))) => (
            State::Switching { target, returning: disarmed(returning, id) },
            last,
            screen,
            Action::Ignore("a switch is in progress"),
        ),
        (State::Switching { target, returning }, Event::SwitchFinished) => {
            let until = (now + cfg.timing.cooldown_ms) as u64;
            let away = target != cfg.this_host;
            (
                State::Cooldown {
                    until,
                    away,
                    returning: if away {
                        returning
                    } else {
                        None
                    },
                },
                Some(target),
                screen,
                Action::ArmTimer(until),
            )
        },
        (State::Cooldown { until, away, returning }, Event::Trigger(TriggerEvent::DeviceArrived(id))) => (
            State::Cooldown { until, away, returning: armed(cfg, returning, id, away) },
            last,
            screen,
            Action::Ignore("cooling down after a switch"),
        ),
        (State::Cooldown { until, away, returning }, Event::Trigger(TriggerEvent::DeviceLeft(id))) => (
            State::Cooldown { until, away, returning: disarmed(returning, id) },
            last,
            screen,
            Action::Ignore("cooling down after a switch"),
        ),
        (State::Cooldown { until, away, returning }, Event::TimerFired) => {
            if now >= until {
                if returning is Some && cfg.options.switch_back_on_reconnect {
                    (
                        State::Switching { target: cfg.this_host, returning: None },
                        last,
                        screen,
                        Action::StartSwitch { target: cfg.this_host, manual: false },
                    )
                } else {
                    (State::Idle, last, screen, Action::Ignore("cooldown finished"))
                }
            } else {
                (
                    State::Cooldown { until, away, returning },
                    last,
                    screen,
                    Action::Ignore("timer fired before cooldown end"),
                )
            }
        },
        (state, _) => (state, last, screen, Action::Ignore(idle_reason(state))),
    }
}


// ---------------------------------------------------------------------------
// What holds of every transition.
// ---------------------------------------------------------------------------

/// What every state the coordinator reaches from `Idle` satisfies under a
/// valid config: a pending debounce or a running switch aims at a declared
/// host, a leave never aims at this host and a pull always does, and a
/// switch to this host, or the cooldown after it, has no return pending.
pub open spec fn coherent(cfg: Config, state: State) -> bool {
    match state {
        State::Idle => true,
        State::Confirming { target, from_arrival, .. } => {
            &&& cfg.declares(target)
            &&& from_arrival ==> target == cfg.this_host
            &&& !from_arrival ==> target != cfg.this_host
        },
        State::Switching { target, returning } => {
            &&& cfg.declares(target)
            &&& target == cfg.this_host ==> returning is None
        },
        State::Cooldown { away, returning, .. } => !away ==> returning is None,
    }
}

proof fn lemma_leave_step_coherent(cfg: Config, id: DeviceId, now: Millis)
    ensures
        match leave_step(cfg, id, now) {
            Some((s, a)) => coherent(cfg, s) && s is Confirming && a is ArmTimer,
            None => true,
        },
{
    if exists|k: int| cfg.only_other(cfg.this_host, k) {
        let k = choose|k: int| cfg.only_other(cfg.this_host, k);
        assert(cfg.hosts@[k].index == cfg.hosts@[k].index);
    }
}

/// Every transition keeps a valid config's coordinator coherent, and a switch
/// it starts always aims at a declared host.
pub proof fn lemma_transitions_stay_coherent(
    cfg: Config,
    state: State,
    last: Option<HostIndex>,
    screen: Option<bool>,
    ev: Event,
    now: Millis,
)
    requires
        cfg.valid(),
        coherent(cfg, state),
    ensures
        coherent(cfg, step(cfg, state, last, screen, ev, now).0),
        step(cfg, state, last, screen, ev, now).3 matches Action::StartSwitch { target, .. }
            ==> cfg.declares(target),
{
    match ev {
        Event::Trigger(TriggerEvent::DeviceLeft(id)) => lemma_leave_step_coherent(cfg, id, now),
        _ => {},
    }
}

/// Every switch the coordinator starts under a valid config can be planned:
/// it aims at a declared host, and every display has an input for it.
pub proof fn lemma_started_switches_can_be_planned(
    cfg: Config,
    state: State,
    last: Option<HostIndex>,
    screen: Option<bool>,
    ev: Event,
    now: Millis,
)
    requires
        cfg.valid(),
        coherent(cfg, state),
    ensures
        step(cfg, state, last, screen, ev, now).3 matches Action::StartSwitch { target, manual }
            ==> spec_build_plan(&cfg, target, manual) is Ok,
{
    lemma_transitions_stay_coherent(cfg, state, last, screen, ev, now);
    match step(cfg, state, last, screen, ev, now).3 {
        Action::StartSwitch { target, manual } => {
            lemma_valid_config_plans_every_declared_host(&cfg, target, manual);
        },
        _ => {},
    }
}

/// A switch starts only when it is due: a manual request from `Idle`, a
/// debounce whose deadline has passed, or a cooldown that has ended with a
/// return pending and switching back enabled. Whatever starts it, the
/// coordinator is then `Switching` towards that target with nothing pending.
/// So neither the debounce nor the cooldown can be cut short, and no switch
/// starts while another one runs.
pub proof fn lemma_switch_only_when_due(
    cfg: Config,
    state: State,
    last: Option<HostIndex>,
    screen: Option<bool>,
    ev: Event,
    now: Millis,
)
    ensures
        ({
            let (s, l, o, a) = step(cfg, state, last, screen, ev, now);
            a matches Action::StartSwitch { target, manual } ==> {
                &&& s == State::Switching { target, returning: None }
                &&& l == last
                &&& manual ==> state is Idle
                &&& manual ==> ev == Event::Trigger(TriggerEvent::Manual {
                    target,
                    source: ev->Trigger_0->Manual_source,
                })
                &&& !manual ==> ev is TimerFired
                &&& !manual ==> match state {
                    State::Confirming { target: t, deadline, .. } => now >= deadline && t == target,
                    State::Cooldown { until, returning, .. } => {
                        &&& now >= until
                        &&& returning is Some
                        &&& cfg.options.switch_back_on_reconnect
                        &&& target == cfg.this_host
                    },
                    _ => false,
                }
            }
        }),
{
}

/// Only the departure side pushes: an automatic switch sends everything to
/// another host only when the leave debounce of a trigger device that left
/// this machine has run out. An arrival, or a return once the cooldown is
/// over, only ever brings everything here.
pub proof fn lemma_only_the_departure_side_pushes(
    cfg: Config,
    state: State,
    last: Option<HostIndex>,
    screen: Option<bool>,
    ev: Event,
    now: Millis,
)
    requires
        coherent(cfg, state),
    ensures
        ({
            let a = step(cfg, state, last, screen, ev, now).3;
            a is StartSwitch && !a->StartSwitch_manual && a->StartSwitch_target != cfg.this_host ==> {
                &&& ev is TimerFired
                &&& state is Confirming
                &&& !state->Confirming_from_arrival
                &&& state->Confirming_target == a->StartSwitch_target
            }
        }),
{
    lemma_switch_only_when_due(cfg, state, last, screen, ev, now);
}

/// Before its end the cooldown ignores everything: the coordinator stays in
/// the same cooldown, and the only thing an event can change is which trigger
/// device has a return pending.
pub proof fn lemma_cooldown_is_not_cut_short(
    cfg: Config,
    until: Millis,
    away: bool,
    returning: Option<DeviceId>,
    last: Option<HostIndex>,
    screen: Option<bool>,
    ev: Event,
    now: Millis,
)
    requires
        now < until,
    ensures
        ({
            let (s, l, o, a) = step(
                cfg,
                State::Cooldown { until, away, returning },
                last,
                screen,
                ev,
                now,
            );
            &&& s matches State::Cooldown { until: u, away: w, .. } && u == until && w == away
            &&& a is Ignore
            &&& l == last
            &&& o == screen
        }),
{
}

/// While a switch runs nothing else starts: every event but its end is
/// ignored and keeps the target. Its end starts the cooldown, from `now`,
/// and records where everything went.
pub proof fn lemma_one_switch_at_a_time(
    cfg: Config,
    target: HostIndex,
    returning: Option<DeviceId>,
    last: Option<HostIndex>,
    screen: Option<bool>,
    ev: Event,
    now: Millis,
)
    requires
        now + cfg.timing.cooldown_ms <= u64::MAX,
    ensures
        ({
            let (s, l, o, a) = step(
                cfg,
                State::Switching { target, returning },
                last,
                screen,
                ev,
                now,
            );
            &&& o == screen
            &&& ev is SwitchFinished ==> {
                &&& s matches State::Cooldown { until, away, .. }
                    && until == now + cfg.timing.cooldown_ms
                    && away == (target != cfg.this_host)
                &&& a == Action::ArmTimer((now + cfg.timing.cooldown_ms) as u64)
                &&& l == Some(target)
            }
            &&& !(ev is SwitchFinished) ==> {
                &&& s matches State::Switching { target: t, .. } && t == target
                &&& a is Ignore
                &&& l == last
            }
        }),
{
}

/// During a switch or its cooldown a trigger device that arrives records the
/// pending return only when the switch really left this host and nothing is
/// pending yet; a device that leaves clears the pending return only when it
/// is the one that recorded it. Nothing else about the state changes.
pub proof fn lemma_pending_return_rule(
    cfg: Config,
    state: State,
    id: DeviceId,
    last: Option<HostIndex>,
    screen: Option<bool>,
    now: Millis,
)
    requires
        state is Switching || state is Cooldown,
        now + cfg.timing.cooldown_ms <= u64::MAX,
    ensures
        ({
            let away = match state {
                State::Switching { target, .. } => target != cfg.this_host,
                State::Cooldown { away, .. } => away,
                _ => false,
            };
            let returning = match state {
                State::Switching { returning, .. } => returning,
                State::Cooldown { returning, .. } => returning,
                _ => None,
            };
            let arrived = step(
                cfg,
                state,
                last,
                screen,
                Event::Trigger(TriggerEvent::DeviceArrived(id)),
                now,
            );
            let left = step(cfg, state, last, screen, Event::Trigger(TriggerEvent::DeviceLeft(id)), now);
            let pending = |s: State|
                match s {
                    State::Switching { returning, .. } => returning,
                    State::Cooldown { returning, .. } => returning,
                    _ => None,
                };
            &&& pending(arrived.0) == (if returning is None && away && is_trigger_in(cfg, id) {
                Some(id)
            } else {
                returning
            })
            &&& pending(left.0) == (if returning matches Some(r) && r@ == id@ {
                None
            } else {
                returning
            })
            &&& arrived.0 == with_pending(state, pending(arrived.0))
            &&& left.0 == with_pending(state, pending(left.0))
            &&& arrived.1 == last && left.1 == last
            &&& arrived.2 == screen && left.2 == screen
            &&& arrived.3 is Ignore && left.3 is Ignore
        }),
{
}

/// From `Idle`, a trigger device leaving arms the leave debounce towards the
/// host it leaves to, from the moment it left; any other device leaving, or
/// a trigger device with nowhere to leave to, changes nothing.
pub proof fn lemma_leave_from_idle(
    cfg: Config,
    id: DeviceId,
    last: Option<HostIndex>,
    screen: Option<bool>,
    now: Millis,
)
    requires
        now + cfg.timing.debounce_ms <= u64::MAX,
    ensures
        ({
            let r = step(cfg, State::Idle, last, screen, Event::Trigger(TriggerEvent::DeviceLeft(id)), now);
            let deadline = (now + cfg.timing.debounce_ms) as u64;
            &&& r.1 == last && r.2 == screen
            &&& if is_trigger_in(cfg, id) && spec_target_for_leave(&cfg, id@) is Some {
                &&& r.0 == State::Confirming {
                    target: spec_target_for_leave(&cfg, id@)->Some_0,
                    trigger: id,
                    deadline,
                    from_arrival: false,
                }
                &&& r.3 == Action::ArmTimer(deadline)
                &&& deadline == now + cfg.timing.debounce_ms
            } else {
                r.0 == State::Idle && r.3 is Ignore
            }
        }),
{
}

/// From `Idle`, a trigger device arriving arms the pull debounce towards this
/// host when pulling on arrival is on; otherwise the arrival is ignored, with
/// the reason.
pub proof fn lemma_arrival_from_idle(
    cfg: Config,
    id: DeviceId,
    last: Option<HostIndex>,
    screen: Option<bool>,
    now: Millis,
)
    requires
        now + cfg.timing.debounce_ms <= u64::MAX,
    ensures
        ({
            let r = step(cfg, State::Idle, last, screen, Event::Trigger(TriggerEvent::DeviceArrived(id)), now);
            let deadline = (now + cfg.timing.debounce_ms) as u64;
            &&& r.1 == last && r.2 == screen
            &&& !is_trigger_in(cfg, id) ==> r.0 == State::Idle && r.3 == Action::Ignore("not a trigger device")
            &&& is_trigger_in(cfg, id) && !cfg.options.pull_on_arrival ==> r.0 == State::Idle && r.3
                == Action::Ignore("pulling on arrival is off")
            &&& is_trigger_in(cfg, id) && cfg.options.pull_on_arrival ==> {
                &&& r.0 == State::Confirming { target: cfg.this_host, trigger: id, deadline, from_arrival: true }
                &&& r.3 == Action::ArmTimer(deadline)
                &&& deadline == now + cfg.timing.debounce_ms
            }
        }),
{
}

/// From `Idle`, a manual request starts a switch to a declared host at once
/// and is refused for any other.
pub proof fn lemma_manual_from_idle(
    cfg: Config,
    target: HostIndex,
    source: &'static str,
    last: Option<HostIndex>,
    screen: Option<bool>,
    now: Millis,
)
    ensures
        step(cfg, State::Idle, last, screen, Event::Trigger(TriggerEvent::Manual { target, source }), now)
            == if cfg.declares(target) {
            (
                State::Switching { target, returning: None },
                last,
                screen,
                Action::StartSwitch { target, manual: true },
            )
        } else {
            (State::Idle, last, screen, Action::Ignore("target not declared"))
        },
{
}

/// During a debounce, an arrival cancels the leave debounce exactly when it
/// is the departed trigger device coming back; any other arrival, and any
/// arrival during a pull debounce, leaves the debounce as it is.
pub proof fn lemma_arrival_during_debounce(
    cfg: Config,
    target: HostIndex,
    trigger: DeviceId,
    deadline: Millis,
    from_arrival: bool,
    id: DeviceId,
    last: Option<HostIndex>,
    screen: Option<bool>,
    now: Millis,
)
    ensures
        ({
            let state = State::Confirming { target, trigger, deadline, from_arrival };
            let r = step(cfg, state, last, screen, Event::Trigger(TriggerEvent::DeviceArrived(id)), now);
            &&& r.1 == last && r.2 == screen
            &&& if id@ == trigger@ && !from_arrival {
                r.0 == State::Idle && r.3 == Action::CancelTimer
            } else {
                r.0 == state && r.3 is Ignore
            }
        }),
{
}

/// The leave debounce starts its switch once its deadline has passed and not
/// a moment before: a timer that fires early changes nothing.
pub proof fn lemma_leave_debounce_expiry(
    cfg: Config,
    target: HostIndex,
    trigger: DeviceId,
    deadline: Millis,
    last: Option<HostIndex>,
    screen: Option<bool>,
    now: Millis,
)
    ensures
        ({
            let state = State::Confirming { target, trigger, deadline, from_arrival: false };
            step(cfg, state, last, screen, Event::TimerFired, now) == if now >= deadline {
                (
                    State::Switching { target, returning: None },
                    last,
                    screen,
                    Action::StartSwitch { target, manual: false },
                )
            } else {
                (state, last, screen, Action::Ignore("timer fired before deadline"))
            }
        }),
{
}

/// Once the cooldown is over, it either brings everything home, when a
/// return is pending and switching back is on, or goes back to `Idle`.
pub proof fn lemma_cooldown_end(
    cfg: Config,
    until: Millis,
    away: bool,
    returning: Option<DeviceId>,
    last: Option<HostIndex>,
    screen: Option<bool>,
    now: Millis,
)
    requires
        now >= until,
    ensures
        step(cfg, State::Cooldown { until, away, returning }, last, screen, Event::TimerFired, now)
            == if returning is Some && cfg.options.switch_back_on_reconnect {
            (
                State::Switching { target: cfg.this_host, returning: None },
                last,
                screen,
                Action::StartSwitch { target: cfg.this_host, manual: false },
            )
        } else {
            (State::Idle, last, screen, Action::Ignore("cooldown finished"))
        },
{
}

/// Leaving always beats pulling: a trigger device that leaves during its own
/// arrival debounce does not merely cancel the pull, it starts the leave
/// sequence afresh — exactly the leave debounce a departure from `Idle`
/// starts, towards the host it leaves to and from the moment it left.
pub proof fn lemma_leave_beats_pull(
    cfg: Config,
    target: HostIndex,
    trigger: DeviceId,
    deadline: Millis,
    id: DeviceId,
    last: Option<HostIndex>,
    screen: Option<bool>,
    now: Millis,
)
    requires
        id@ == trigger@,
        is_trigger_in(cfg, id),
        spec_target_for_leave(&cfg, id@) is Some,
    ensures
        step(
            cfg,
            State::Confirming { target, trigger, deadline, from_arrival: true },
            last,
            screen,
            Event::Trigger(TriggerEvent::DeviceLeft(id)),
            now,
        ) == step(cfg, State::Idle, last, screen, Event::Trigger(TriggerEvent::DeviceLeft(id)), now),
        step(
            cfg,
            State::Confirming { target, trigger, deadline, from_arrival: true },
            last,
            screen,
            Event::Trigger(TriggerEvent::DeviceLeft(id)),
            now,
        ) == (
            State::Confirming {
                target: spec_target_for_leave(&cfg, id@)->Some_0,
                trigger: id,
                deadline: (now + cfg.timing.debounce_ms) as u64,
                from_arrival: false,
            },
            last,
            screen,
            Action::ArmTimer((now + cfg.timing.debounce_ms) as u64),
        ),
{
}

/// When the arrival debounce ends the screen reading is spent, whatever it
/// decided, and a monitor that already shows this host stops the pull.
pub proof fn lemma_screen_reading_decides_once(
    cfg: Config,
    target: HostIndex,
    trigger: DeviceId,
    deadline: Millis,
    last: Option<HostIndex>,
    screen: Option<bool>,
    now: Millis,
)
    requires
        now >= deadline,
    ensures
        ({
            let (s, l, o, a) = step(
                cfg,
                State::Confirming { target, trigger, deadline, from_arrival: true },
                last,
                screen,
                Event::TimerFired,
                now,
            );
            &&& o is None
            &&& l == last
            &&& screen == Some(true) ==> s is Idle && a == Action::Ignore(
                "the screen is already here",
            )
            &&& screen == Some(false) ==> a == Action::StartSwitch { target, manual: false }
        }),
{
}

impl Coordinator {
    pub closed spec fn state_of(&self) -> State {
        self.state
    }

    pub closed spec fn config_of(&self) -> Config {
        self.cfg
    }

    pub closed spec fn last_target_of(&self) -> Option<HostIndex> {
        self.last_target
    }

    pub closed spec fn screen_of(&self) -> Option<bool> {
        self.screen_here
    }

    /// The times this coordinator adds its debounce or its cooldown to
    /// stay within a `u64`.
    pub open spec fn time_fits(&self, now: Millis) -> bool {
        &&& now + self.config_of().timing.debounce_ms <= u64::MAX
        &&& now + self.config_of().timing.cooldown_ms <= u64::MAX
    }

    /// A coordinator for `cfg`, idle and with no history. The config should
    /// already have passed [`Config::validate`].
    pub fn new(cfg: Config) -> (r: Coordinator)
        ensures
            r.state_of() == State::Idle,
            r.config_of() == cfg,
            r.last_target_of() is None,
            r.screen_of() is None,
    {
        Coordinator { state: State::Idle, cfg, last_target: None, screen_here: None }
    }

    pub fn state(&self) -> (r: &State)
        ensures
            *r == self.state_of(),
    {
        &self.state
    }

    /// The config this coordinator runs on.
    pub fn config(&self) -> (r: &Config)
        ensures
            *r == self.config_of(),
    {
        &self.cfg
    }

    /// Records what the monitor just said about where the screen is; the
    /// runtime does the reading, this machine stays IO-free.
    ///
    /// `Some(true)` means the display reported the input source this host is
    /// mapped to, `Some(false)` another one, and `None` "we could not tell".
    /// The next arrival debounce to expire consumes it.
    pub fn observe_screen(&mut self, here: Option<bool>)
        ensures
            final(self).screen_of() == here,
            final(self).state_of() == old(self).state_of(),
            final(self).config_of() == old(self).config_of(),
            final(self).last_target_of() == old(self).last_target_of(),
    {
        self.screen_here = here;
    }

    /// Applies one event and returns the one action the caller must perform.
    pub fn handle(&mut self, ev: Event, now: Millis) -> (r: Action)
        requires
            old(self).time_fits(now),
        ensures
            ({
                let (s, l, o, a) = step(
                    old(self).config_of(),
                    old(self).state_of(),
                    old(self).last_target_of(),
                    old(self).screen_of(),
                    ev,
                    now,
                );
                &&& final(self).state_of() == s
                &&& final(self).last_target_of() == l
                &&& final(self).screen_of() == o
                &&& r == a
            }),
            final(self).config_of() == old(self).config_of(),
    {
        let mut state = State::Idle;
        std::mem::swap(&mut state, &mut self.state);
        let debounce = self.cfg.timing.debounce_ms;
        let cooldown = self.cfg.timing.cooldown_ms;
        let (next, action) = match (state, ev) {
            (State::Idle, Event::Trigger(TriggerEvent::DeviceLeft(id))) => {
                if self.is_trigger(&id) {
                    match self.start_leave(id, now) {
                        Some(pair) => pair,
                        None => (State::Idle, Action::Ignore("no leave target for trigger")),
                    }
                } else {
                    (State::Idle, Action::Ignore("not a trigger device"))
                }
            },
            (State::Idle, Event::Trigger(TriggerEvent::DeviceArrived(id))) => {
                match self.pull_allowed(&id) {
                    None => {
                        let deadline = now + debounce;
                        (
                            State::Confirming {
                                target: self.cfg.this_host,
                                trigger: id,
                                deadline,
                                from_arrival: true,
                            },
                            Action::ArmTimer(deadline),
                        )
                    },
                    Some(reason) => (State::Idle, Action::Ignore(reason)),
                }
            },
            (State::Idle, Event::Trigger(TriggerEvent::Manual { target, .. })) => {
                // Never start a switch to a slot that may be unpaired.
                if self.cfg.has_host(target) {
                    (
                        State::Switching { target, returning: None },
                        Action::StartSwitch { target, manual: true },
                    )
                } else {
                    (State::Idle, Action::Ignore("target not declared"))
                }
            },
            (
                State::Confirming { target, trigger, deadline, from_arrival },
                Event::Trigger(TriggerEvent::DeviceArrived(id)),
            ) => {
                let same = id.same(&trigger);
                if same && !from_arrival {
                    // It came back within the debounce: it never really left.
                    (State::Idle, Action::CancelTimer)
                } else {
                    let reason = if same {
                        "waiting out the debounce"
                    } else {
                        "a different device arrived"
                    };
                    (
                        State::Confirming { target, trigger, deadline, from_arrival },
                        Action::Ignore(reason),
                    )
                }
            },
            (
                State::Confirming { target, trigger, deadline, from_arrival },
                Event::Trigger(TriggerEvent::DeviceLeft(id)),
            ) => {
                if id.same(&trigger) && from_arrival {
                    // It left again within the debounce: it never really
                    // arrived, but this is a real departure all the same, so
                    // the leave sequence starts exactly as it would from idle.
                    match self.start_leave(id, now) {
                        Some(pair) => pair,
                        None => (State::Idle, Action::CancelTimer),
                    }
                } else {
                    (
                        State::Confirming { target, trigger, deadline, from_arrival },
                        Action::Ignore("waiting out the debounce"),
                    )
                }
            },
            (State::Confirming { target, trigger, deadline, from_arrival }, Event::TimerFired) => {
                if now >= deadline {
                    // The pull asks about the screen only now, once the display
                    // has settled after whatever the other host did.
                    let refusal = if from_arrival {
                        self.pull_verdict()
                    } else {
                        None
                    };
                    match refusal {
                        None => (
                            State::Switching { target, returning: None },
                            Action::StartSwitch { target, manual: false },
                        ),
                        Some(reason) => (State::Idle, Action::Ignore(reason)),
                    }
                } else {
                    // A stale timer: the real deadline has not arrived yet.
                    (
                        State::Confirming { target, trigger, deadline, from_arrival },
                        Action::Ignore("timer fired before deadline"),
                    )
                }
            },
            // The trigger device bounced back while this machine was handing
            // everything over. The switch runs to the end, but the cooldown
            // remembers to bring everything home afterwards; a switch that
            // brings everything here has nothing to come back from.
            (
                State::Switching { target, returning },
                Event::Trigger(TriggerEvent::DeviceArrived(id)),
            ) => {
                let away = target != self.cfg.this_host;
                let returning = self.arm_return(returning, id, away);
                (State::Switching { target, returning }, Action::Ignore("a switch is in progress"))
            },
            (
                State::Switching { target, returning },
                Event::Trigger(TriggerEvent::DeviceLeft(id)),
            ) => {
                let returning = clear_return(returning, &id);
                (State::Switching { target, returning }, Action::Ignore("a switch is in progress"))
            },
            (State::Switching { target, returning }, Event::SwitchFinished) => {
                let until = now + cooldown;
                // Only a finished switch counts as where everything went.
                self.last_target = Some(target);
                let away = target != self.cfg.this_host;
                (
                    State::Cooldown {
                        until,
                        away,
                        returning: if away {
                            returning
                        } else {
                            None
                        },
                    },
                    Action::ArmTimer(until),
                )
            },
            (
                State::Cooldown { until, away, returning },
                Event::Trigger(TriggerEvent::DeviceArrived(id)),
            ) => {
                let returning = self.arm_return(returning, id, away);
                (
                    State::Cooldown { until, away, returning },
                    Action::Ignore("cooling down after a switch"),
                )
            },
            (
                State::Cooldown { until, away, returning },
                Event::Trigger(TriggerEvent::DeviceLeft(id)),
            ) => {
                let returning = clear_return(returning, &id);
                (
                    State::Cooldown { until, away, returning },
                    Action::Ignore("cooling down after a switch"),
                )
            },
            (State::Cooldown { until, away, returning }, Event::TimerFired) => {
                if now >= until {
                    // The cooldown is over, and never earlier than this: the
                    // wait between two host changes is a hardware requirement.
                    if returning.is_some() && self.cfg.options.switch_back_on_reconnect {
                        let target = self.cfg.this_host;
                        (
                            State::Switching { target, returning: None },
                            Action::StartSwitch { target, manual: false },
                        )
                    } else {
                        (State::Idle, Action::Ignore("cooldown finished"))
                    }
                } else {
                    (
                        State::Cooldown { until, away, returning },
                        Action::Ignore("timer fired before cooldown end"),
                    )
                }
            },
            (state, _) => {
                let reason = ignored_because(&state);
                (state, Action::Ignore(reason))
            },
        };
        self.state = next;
        action
    }

    fn is_trigger(&self, id: &DeviceId) -> (r: bool)
        ensures
            r == is_trigger_in(self.cfg, *id),
    {
        match self.cfg.device(id) {
            Some(device) => device.is_trigger,
            None => false,
        }
    }

    /// The trigger device `id` left this machine: the leave debounce towards
    /// the host it leaves to, or `None` when it has no leave target.
    fn start_leave(&self, id: DeviceId, now: Millis) -> (r: Option<(State, Action)>)
        requires
            now + self.cfg.timing.debounce_ms <= u64::MAX,
        ensures
            r == leave_step(self.cfg, id, now),
    {
        let target = match target_for_leave(&self.cfg, &id) {
            Some(target) => target,
            None => return None,
        };
        let deadline = now + self.cfg.timing.debounce_ms;
        Some(
            (
                State::Confirming { target, trigger: id, deadline, from_arrival: false },
                Action::ArmTimer(deadline),
            ),
        )
    }

    fn pull_allowed(&self, id: &DeviceId) -> (r: Option<&'static str>)
        ensures
            r == pull_refusal(self.cfg, *id),
    {
        if !self.is_trigger(id) {
            return Some("not a trigger device");
        }
        if !self.cfg.options.pull_on_arrival {
            return Some("pulling on arrival is off");
        }
        None
    }

    /// The arrival debounce has expired: does the screen still need pulling
    /// home? One reading answers one pull, whatever is decided.
    fn pull_verdict(&mut self) -> (r: Option<&'static str>)
        ensures
            r == pull_refusal_at_expiry(old(self).cfg, old(self).last_target, old(self).screen_here),
            final(self).screen_here is None,
            final(self).cfg == old(self).cfg,
            final(self).state == old(self).state,
            final(self).last_target == old(self).last_target,
    {
        let observed = self.screen_here;
        self.screen_here = None;
        match observed {
            Some(true) => Some("the screen is already here"),
            Some(false) => None,
            None => match self.last_target {
                None => Some("no switch to pull back from"),
                Some(target) => if target == self.cfg.this_host {
                    Some("the screen is already here")
                } else {
                    None
                },
            },
        }
    }

    fn arm_return(&self, returning: Option<DeviceId>, id: DeviceId, away: bool) -> (r: Option<
        DeviceId,
    >)
        ensures
            r == armed(self.cfg, returning, id, away),
    {
        match returning {
            Some(armed) => Some(armed),
            None => if away && self.is_trigger(&id) {
                Some(id)
            } else {
                None
            },
        }
    }
}

fn clear_return(returning: Option<DeviceId>, id: &DeviceId) -> (r: Option<DeviceId>)
    ensures
        r == disarmed(returning, *id),
{
    match returning {
        Some(armed) => if armed.same(id) {
            None
        } else {
            Some(armed)
        },
        None => None,
    }
}

fn ignored_because(state: &State) -> (r: &'static str)
    ensures
        r == idle_reason(*state),
{
    match state {
        State::Idle => "nothing to do while idle",
        State::Confirming { .. } => "waiting out the debounce",
        State::Switching { .. } => "a switch is in progress",
        State::Cooldown { .. } => "cooling down after a switch",
    }
}

} // verus!
