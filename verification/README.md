# Relay

A software KVM for Macs that share one monitor and one Logitech keyboard and
mouse. When the keyboard leaves a Mac (Easy-Switch), that Mac sends the rest
after it: the monitor changes input source over DDC/CI and the mouse changes
host over HID++. When the keyboard arrives, the Mac asks the monitor where the
picture is and pulls it home if it is elsewhere.

## Layout

- `src/` — the library, `relay_core`, verified with Verus: every function
  carries a contract and every law is a proof function.
  - `coordinator` — the state machine (`Idle → Confirming → Switching →
    Cooldown`) as a transition function, with the laws it keeps: no switch
    before its debounce, none during another or during the cooldown, only the
    departure side pushes, leaving beats pulling.
  - `config`, `plan` — the configuration, its validation and adoption, and
    the plan a switch runs.
  - `executor` — one plan's run, call by call (`PlanRun`): displays first,
    retries with backoff, one step per entry whatever happens to the others.
  - `runtime` — the rules for changing the configuration under a running
    core (`Engine`), and the status the tray and the windows show.
  - `trigger` — folding HID node events into device arrivals and departures.
  - `display`, `device` — DDC/CI packets, replies, capabilities strings and
    display pairing; HID++ candidate selection, switch outcomes and scans.
  - `log`, `tray`, `cli`, `ipc`, `paths`, `config_watch`, `text` — the log
    ring, the menu, the command line and its socket, file locations, config
    file events, and text.
- `app/` — the macOS application around it: IOKit and HID++ calls, the tokio
  loop that runs the core, the unix socket, the tray and the windows. It
  performs the calls the library asks for and hands the answers back.
- `tests/` — tests of the library on concrete values.
