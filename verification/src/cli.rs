//! What the short-lived `relay` command line asks for. Talking to the
//! resident app, starting it, and printing belong to the platform layer.

use vstd::prelude::*;

use crate::text::{chars_of, concat, parse_uint, parse_unsigned, str_eq};

verus! {

pub const EXIT_OK: i32 = 0;
pub const EXIT_FAILURE: i32 = 1;
pub const EXIT_USAGE: i32 = 2;
pub const EXIT_NO_APP: i32 = 3;

/// How long to keep retrying the socket after starting the app, and how
/// often.
pub const SPAWN_TIMEOUT_MS: u64 = 5000;
pub const SPAWN_POLL_MS: u64 = 250;
/// How long the command line waits for an answer to a quick request.
pub const QUICK_TIMEOUT_MS: u64 = 5000;
/// How long it waits for a real switch: the display path retries with backoff
/// before two device calls of up to eight seconds each.
pub const SWITCH_TIMEOUT_MS: u64 = 120000;

#[derive(Clone, Debug, PartialEq, Eq)]
pub enum Command {
    /// No arguments: be the resident app.
    Run,
    Help,
    Devices,
    Displays,
    Status,
    Settings,
    Switch { target: Target, dry_run: bool, no_spawn: bool },
}

#[derive(Clone, Debug, PartialEq, Eq)]
pub enum Target {
    Host(u8),
    Next,
}

/// How long to wait for the answer: a real switch can take close to a
/// minute, everything else answers almost at once.
pub fn read_timeout_ms(switching: bool, dry_run: bool) -> (r: u64)
    ensures
        r == if switching && !dry_run {
            SWITCH_TIMEOUT_MS
        } else {
            QUICK_TIMEOUT_MS
        },
{
    if switching && !dry_run {
        SWITCH_TIMEOUT_MS
    } else {
        QUICK_TIMEOUT_MS
    }
}

/// The argument list as text.
pub open spec fn texts(args: Seq<String>) -> Seq<Seq<char>> {
    Seq::new(args.len(), |i: int| args[i]@)
}

/// What the arguments after `switch` ask for, scanning them in order: the
/// flags in any position, one target — a host slot or `next` — and anything
/// else refused with the reason.
pub open spec fn switch_scan(args: Seq<Seq<char>>, i: int, target: Option<Target>, dry_run: bool, no_spawn: bool) -> Result<Command, Seq<char>>
    decreases args.len() - i,
{
    if i < 0 || i >= args.len() {
        match target {
            Some(t) => Ok(Command::Switch { target: t, dry_run, no_spawn }),
            None => Err("switch needs a host slot or 'next'"@),
        }
    } else {
        let a = args[i];
        if a == "--dry-run"@ {
            switch_scan(args, i + 1, target, true, no_spawn)
        } else if a == "--no-spawn"@ {
            switch_scan(args, i + 1, target, dry_run, true)
        } else if a.len() > 0 && a[0] == '-' {
            Err("unknown option '"@ + a + "'"@)
        } else if target is Some {
            Err("unexpected argument '"@ + a + "'"@)
        } else if a == "next"@ {
            switch_scan(args, i + 1, Some(Target::Next), dry_run, no_spawn)
        } else {
            match parse_unsigned(a, 10, 0xFF) {
                Some(n) => switch_scan(args, i + 1, Some(Target::Host(n as u8)), dry_run, no_spawn),
                None => Err("'"@ + a + "' is not a host slot; give a number or 'next'"@),
            }
        }
    }
}

/// A command that takes no further argument, or why the rest is refused.
pub open spec fn spec_only(args: Seq<Seq<char>>, command: Command) -> Result<Command, Seq<char>> {
    if args.len() <= 1 {
        Ok(command)
    } else {
        Err("unexpected argument '"@ + args[1] + "'"@)
    }
}

/// What the command line asks for.
pub open spec fn spec_parse(args: Seq<Seq<char>>) -> Result<Command, Seq<char>> {
    if args.len() == 0 {
        Ok(Command::Run)
    } else {
        let first = args[0];
        if first == "switch"@ {
            switch_scan(args, 1, None, false, false)
        } else if first == "status"@ || first == "--status"@ {
            spec_only(args, Command::Status)
        } else if first == "--settings"@ {
            spec_only(args, Command::Settings)
        } else if first == "--devices"@ {
            spec_only(args, Command::Devices)
        } else if first == "--displays"@ {
            spec_only(args, Command::Displays)
        } else if first == "--help"@ || first == "-h"@ {
            Ok(Command::Help)
        } else {
            Err("unknown command '"@ + first + "'"@)
        }
    }
}

proof fn lemma_scan_reads_from(a1: Seq<Seq<char>>, a2: Seq<Seq<char>>, k: int, target: Option<Target>, dry_run: bool, no_spawn: bool)
    requires
        0 <= k,
        a1.len() == a2.len(),
        forall|j: int| k <= j < a1.len() ==> a1[j] == a2[j],
    ensures
        switch_scan(a1, k, target, dry_run, no_spawn) == switch_scan(a2, k, target, dry_run, no_spawn),
    decreases a1.len() - k,
{
    if k < a1.len() {
        let a = a1[k];
        if a == "--dry-run"@ {
            lemma_scan_reads_from(a1, a2, k + 1, target, true, no_spawn);
        } else if a == "--no-spawn"@ {
            lemma_scan_reads_from(a1, a2, k + 1, target, dry_run, true);
        } else if a.len() > 0 && a[0] == '-' {
        } else if target is Some {
        } else if a == "next"@ {
            lemma_scan_reads_from(a1, a2, k + 1, Some(Target::Next), dry_run, no_spawn);
        } else {
            match parse_unsigned(a, 10, 0xFF) {
                Some(n) => lemma_scan_reads_from(a1, a2, k + 1, Some(Target::Host(n as u8)), dry_run, no_spawn),
                None => {},
            }
        }
    }
}

/// Is `a` one of the flags `switch` takes?
pub open spec fn is_switch_flag(a: Seq<char>) -> bool {
    a == "--dry-run"@ || a == "--no-spawn"@
}

proof fn lemma_flag_swap_from(
    args: Seq<Seq<char>>,
    i: int,
    k: int,
    target: Option<Target>,
    dry_run: bool,
    no_spawn: bool,
)
    requires
        1 <= k <= i,
        i + 1 < args.len(),
        is_switch_flag(args[i]),
    ensures
        switch_scan(args, k, target, dry_run, no_spawn) == switch_scan(
            args.update(i, args[i + 1]).update(i + 1, args[i]),
            k,
            target,
            dry_run,
            no_spawn,
        ),
    decreases i - k,
{
    reveal_strlit("--dry-run");
    reveal_strlit("--no-spawn");
    let sw = args.update(i, args[i + 1]).update(i + 1, args[i]);
    assert(sw.len() == args.len());
    if k < i {
        assert(sw[k] == args[k]);
        let a = args[k];
        if a == "--dry-run"@ {
            lemma_flag_swap_from(args, i, k + 1, target, true, no_spawn);
        } else if a == "--no-spawn"@ {
            lemma_flag_swap_from(args, i, k + 1, target, dry_run, true);
        } else if a.len() > 0 && a[0] == '-' {
        } else if target is Some {
        } else if a == "next"@ {
            lemma_flag_swap_from(args, i, k + 1, Some(Target::Next), dry_run, no_spawn);
        } else {
            match parse_unsigned(a, 10, 0xFF) {
                Some(n) => lemma_flag_swap_from(args, i, k + 1, Some(Target::Host(n as u8)), dry_run, no_spawn),
                None => {},
            }
        }
    } else {
        let f = args[i];
        let b = args[i + 1];
        assert(sw[i] == b && sw[i + 1] == f);
        let d1 = dry_run || f == "--dry-run"@;
        let n1 = no_spawn || f == "--no-spawn"@;
        assert(switch_scan(args, i, target, dry_run, no_spawn) == switch_scan(args, i + 1, target, d1, n1));
        if b == "--dry-run"@ || b == "--no-spawn"@ {
            let d2 = d1 || b == "--dry-run"@;
            let n2 = n1 || b == "--no-spawn"@;
            assert(switch_scan(args, i + 1, target, d1, n1) == switch_scan(args, i + 2, target, d2, n2));
            let db = dry_run || b == "--dry-run"@;
            let nb = no_spawn || b == "--no-spawn"@;
            assert(switch_scan(sw, i, target, dry_run, no_spawn) == switch_scan(sw, i + 1, target, db, nb));
            assert(switch_scan(sw, i + 1, target, db, nb) == switch_scan(sw, i + 2, target, d2, n2));
            lemma_scan_reads_from(args, sw, i + 2, target, d2, n2);
        } else if b.len() > 0 && b[0] == '-' {
        } else if target is Some {
        } else if b == "next"@ {
            let t = Some(Target::Next);
            assert(switch_scan(sw, i + 1, t, dry_run, no_spawn) == switch_scan(sw, i + 2, t, d1, n1));
            lemma_scan_reads_from(args, sw, i + 2, t, d1, n1);
        } else {
            match parse_unsigned(b, 10, 0xFF) {
                Some(n) => {
                    let t = Some(Target::Host(n as u8));
                    assert(switch_scan(sw, i + 1, t, dry_run, no_spawn) == switch_scan(sw, i + 2, t, d1, n1));
                    lemma_scan_reads_from(args, sw, i + 2, t, d1, n1);
                },
                None => {},
            }
        }
    }
}

proof fn lemma_flags_recorded_from(args: Seq<Seq<char>>, k: int, target: Option<Target>, dry_run: bool, no_spawn: bool)
    requires
        1 <= k,
    ensures
        switch_scan(args, k, target, dry_run, no_spawn) matches Ok(Command::Switch { dry_run: d, no_spawn: n, .. })
            ==> {
            &&& d == (dry_run || exists|j: int| k <= j < args.len() && #[trigger] args[j] == "--dry-run"@)
            &&& n == (no_spawn || exists|j: int| k <= j < args.len() && #[trigger] args[j] == "--no-spawn"@)
        },
    decreases args.len() - k,
{
    reveal_strlit("--dry-run");
    reveal_strlit("--no-spawn");
    if k < args.len() {
        let a = args[k];
        if a == "--dry-run"@ {
            lemma_flags_recorded_from(args, k + 1, target, true, no_spawn);
        } else if a == "--no-spawn"@ {
            lemma_flags_recorded_from(args, k + 1, target, dry_run, true);
        } else if a.len() > 0 && a[0] == '-' {
        } else if target is Some {
        } else if a == "next"@ {
            lemma_flags_recorded_from(args, k + 1, Some(Target::Next), dry_run, no_spawn);
        } else {
            match parse_unsigned(a, 10, 0xFF) {
                Some(n) => lemma_flags_recorded_from(args, k + 1, Some(Target::Host(n as u8)), dry_run, no_spawn),
                None => {},
            }
        }
    }
}

/// `switch` takes its flags in any position: a flag swapped with the argument
/// after it, a target or anything else, leaves the answer as it was; and a
/// successful `switch` is a dry run, or does not start the app, exactly when
/// the flag for it is among its arguments.
pub proof fn lemma_switch_flags_go_anywhere(args: Seq<Seq<char>>, i: int)
    requires
        args.len() >= 1,
        args[0] == "switch"@,
    ensures
        1 <= i && i + 1 < args.len() && is_switch_flag(args[i]) ==> spec_parse(args) == spec_parse(
            args.update(i, args[i + 1]).update(i + 1, args[i]),
        ),
        spec_parse(args) matches Ok(Command::Switch { dry_run, no_spawn, .. }) ==> {
            &&& dry_run == exists|j: int| 1 <= j < args.len() && #[trigger] args[j] == "--dry-run"@
            &&& no_spawn == exists|j: int| 1 <= j < args.len() && #[trigger] args[j] == "--no-spawn"@
        },
{
    lemma_flags_recorded_from(args, 1, None, false, false);
    if 1 <= i && i + 1 < args.len() && is_switch_flag(args[i]) {
        let sw = args.update(i, args[i + 1]).update(i + 1, args[i]);
        assert(sw[0] == "switch"@);
        lemma_flag_swap_from(args, i, 1, None, false, false);
    }
}

/// Put after the target, as the usage shows it, or before it, `--dry-run`
/// asks for the same dry run: for every argument `a`, `switch a --dry-run`
/// and `switch --dry-run a` are the same request, and when it is one, it is a
/// dry run.
pub proof fn lemma_dry_run_after_the_target(a: Seq<char>)
    ensures
        spec_parse(seq!["switch"@, a, "--dry-run"@]) == spec_parse(seq!["switch"@, "--dry-run"@, a]),
        spec_parse(seq!["switch"@, a, "--dry-run"@]) matches Ok(Command::Switch { dry_run, .. }) ==> dry_run,
{
    let args = seq!["switch"@, "--dry-run"@, a];
    lemma_switch_flags_go_anywhere(args, 1);
    assert(args.update(1, args[2]).update(2, args[1]) =~= seq!["switch"@, a, "--dry-run"@]);
    let other = seq!["switch"@, a, "--dry-run"@];
    lemma_switch_flags_go_anywhere(other, 1);
    assert(other[2] == "--dry-run"@);
}

/// `'a'`, quoted.
fn quoted(head: &str, a: &str, tail: &str) -> (r: String)
    ensures
        r@ == head@ + a@ + tail@,
{
    let s = concat(head, a);
    let r = concat(s.as_str(), tail);
    assert(r@ =~= head@ + a@ + tail@);
    r
}

fn only(args: &[String], command: Command) -> (r: Result<Command, String>)
    requires
        args@.len() >= 1,
    ensures
        match (r, spec_only(texts(args@), command)) {
            (Ok(a), Ok(b)) => a == b,
            (Err(a), Err(b)) => a@ == b,
            _ => false,
        },
{
    if args.len() <= 1 {
        Ok(command)
    } else {
        assert(texts(args@)[1] == args@[1]@);
        Err(quoted("unexpected argument '", args[1].as_str(), "'"))
    }
}

fn parse_switch(args: &[String]) -> (r: Result<Command, String>)
    requires
        args@.len() >= 1,
    ensures
        match (r, switch_scan(texts(args@), 1, None, false, false)) {
            (Ok(a), Ok(b)) => a == b,
            (Err(a), Err(b)) => a@ == b,
            _ => false,
        },
{
    let ghost t = texts(args@);
    let mut target: Option<Target> = None;
    let mut dry_run = false;
    let mut no_spawn = false;
    let mut i: usize = 1;
    while i < args.len()
        invariant
            1 <= i <= args@.len(),
            t == texts(args@),
            switch_scan(t, 1, None, false, false) == switch_scan(t, i as int, target, dry_run, no_spawn),
        decreases args@.len() - i,
    {
        let a = args[i].as_str();
        assert(t[i as int] == a@);
        let v = chars_of(a);
        if str_eq(a, "--dry-run") {
            dry_run = true;
        } else if str_eq(a, "--no-spawn") {
            no_spawn = true;
        } else if v.len() > 0 && v[0] == '-' {
            return Err(quoted("unknown option '", a, "'"));
        } else if target.is_some() {
            return Err(quoted("unexpected argument '", a, "'"));
        } else if str_eq(a, "next") {
            target = Some(Target::Next);
        } else {
            assert(v@.subrange(0, v@.len() as int) =~= v@);
            match parse_uint(&v, 0, v.len(), 10, 0xFF) {
                Some(n) => {
                    target = Some(Target::Host(n as u8));
                },
                None => {
                    return Err(quoted("'", a, "' is not a host slot; give a number or 'next'"));
                },
            }
        }
        i = i + 1;
    }
    match target {
        Some(target) => Ok(Command::Switch { target, dry_run, no_spawn }),
        None => Err("switch needs a host slot or 'next'".to_owned()),
    }
}

/// Reads the command line, without the program name.
pub fn parse(args: &[String]) -> (r: Result<Command, String>)
    ensures
        match (r, spec_parse(texts(args@))) {
            (Ok(a), Ok(b)) => a == b,
            (Err(a), Err(b)) => a@ == b,
            _ => false,
        },
{
    if args.len() == 0 {
        return Ok(Command::Run);
    }
    let first = args[0].as_str();
    assert(texts(args@)[0] == first@);
    if str_eq(first, "switch") {
        parse_switch(args)
    } else if str_eq(first, "status") || str_eq(first, "--status") {
        only(args, Command::Status)
    } else if str_eq(first, "--settings") {
        only(args, Command::Settings)
    } else if str_eq(first, "--devices") {
        only(args, Command::Devices)
    } else if str_eq(first, "--displays") {
        only(args, Command::Displays)
    } else if str_eq(first, "--help") || str_eq(first, "-h") {
        Ok(Command::Help)
    } else {
        Err(quoted("unknown command '", first, "'"))
    }
}

/// The host after `this_host` in the configured order, wrapping around, or
/// `None` when `this_host` is not among them.
pub open spec fn first_at(hosts: Seq<(u8, String)>, this_host: u8, p: int) -> bool {
    &&& 0 <= p < hosts.len()
    &&& hosts[p].0 == this_host
    &&& forall|q: int| 0 <= q < p ==> #[trigger] hosts[q].0 != this_host
}

pub open spec fn spec_next_host(hosts: Seq<(u8, String)>, this_host: u8) -> Option<u8> {
    if exists|p: int| first_at(hosts, this_host, p) {
        let p = choose|p: int| first_at(hosts, this_host, p);
        Some(hosts[(p + 1) % (hosts.len() as int)].0)
    } else {
        None
    }
}

pub fn next_host(hosts: &[(u8, String)], this_host: u8) -> (r: Option<u8>)
    ensures
        r == spec_next_host(hosts@, this_host),
{
    let mut p: usize = 0;
    while p < hosts.len()
        invariant
            p <= hosts@.len(),
            forall|q: int| 0 <= q < p ==> #[trigger] hosts@[q].0 != this_host,
        decreases hosts@.len() - p,
    {
        if hosts[p].0 == this_host {
            assert(first_at(hosts@, this_host, p as int));
            proof {
                let c = choose|c: int| first_at(hosts@, this_host, c);
                if c < p {
                    assert(hosts@[c].0 != this_host);
                } else if c > p {
                    assert(hosts@[p as int].0 != this_host);
                }
            }
            let next = if p + 1 == hosts.len() {
                0
            } else {
                p + 1
            };
            let ghost len = hosts@.len() as int;
            assert(next as int == (p + 1) % len) by (nonlinear_arith)
                requires
                    0 <= p < len,
                    next as int == if p + 1 == len {
                        0
                    } else {
                        p + 1
                    },
            ;
            return Some(hosts[next].0);
        }
        p = p + 1;
    }
    assert forall|c: int| !#[trigger] first_at(hosts@, this_host, c) by {
        if 0 <= c < hosts@.len() {
            assert(hosts@[c].0 != this_host);
        }
    }
    None
}

/// The command line's next host is the slot listed right after the first
/// entry for this machine, wrapping around to the first entry; there is none
/// when this machine is not listed, and it is another host whenever the
/// listed slots are distinct and there are at least two.
pub proof fn lemma_cli_next_host_is_the_following_entry(hosts: Seq<(u8, String)>, this_host: u8, p: int)
    ensures
        (forall|q: int| 0 <= q < hosts.len() ==> #[trigger] hosts[q].0 != this_host) ==> spec_next_host(
            hosts,
            this_host,
        ) is None,
        0 <= p < hosts.len() && hosts[p].0 == this_host && (forall|q: int|
            0 <= q < p ==> #[trigger] hosts[q].0 != this_host) ==> {
            &&& spec_next_host(hosts, this_host) == Some(
                if p + 1 < hosts.len() {
                    hosts[p + 1].0
                } else {
                    hosts[0].0
                },
            )
            &&& hosts.len() >= 2 && (forall|i: int, j: int|
                0 <= i < j < hosts.len() ==> #[trigger] hosts[i].0 != #[trigger] hosts[j].0)
                ==> spec_next_host(hosts, this_host) != Some(this_host)
        },
{
    if forall|q: int| 0 <= q < hosts.len() ==> #[trigger] hosts[q].0 != this_host {
        assert forall|c: int| !first_at(hosts, this_host, c) by {
            if 0 <= c < hosts.len() {
                assert(hosts[c].0 != this_host);
            }
        }
    }
    if 0 <= p < hosts.len() && hosts[p].0 == this_host && (forall|q: int|
        0 <= q < p ==> #[trigger] hosts[q].0 != this_host) {
        assert(first_at(hosts, this_host, p));
        let c = choose|c: int| first_at(hosts, this_host, c);
        if c < p {
            assert(hosts[c].0 != this_host);
        } else if c > p {
            assert(hosts[p].0 != this_host);
        }
        let n = hosts.len() as int;
        if p + 1 < n {
            vstd::arithmetic::div_mod::lemma_small_mod((p + 1) as nat, n as nat);
        } else {
            vstd::arithmetic::div_mod::lemma_mod_self_0(n);
        }
        if hosts.len() >= 2 && (forall|i: int, j: int|
            0 <= i < j < hosts.len() ==> #[trigger] hosts[i].0 != #[trigger] hosts[j].0) {
            if p + 1 < n {
                assert(hosts[p].0 != hosts[p + 1].0);
            } else {
                assert(hosts[0].0 != hosts[p].0);
            }
        }
    }
}

} // verus!
