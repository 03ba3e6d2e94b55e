//! Asking a display what it can do: the DDC/CI capabilities string (0xF3).
//!
//! The string is fetched fragment by fragment; [`CapsWalk`] decides, for each
//! reply, whether to ask for the next fragment, to stop with the finished
//! string, or to give up. The platform layer moves the bytes.

use vstd::prelude::*;

use vstd::utf8::{decode_utf8, valid_utf8};

use crate::text::{ascii_space, chars_of, is_ascii_space, parse_uint, parse_unsigned, range_eq};

verus! {

/// One input source a display says it has.
#[derive(Debug, Clone, PartialEq, Eq)]
pub struct InputSource {
    pub code: u8,
    /// What MCCS calls `code`, or `None` for a code the standard does not
    /// name. The UI shows the bare number for those.
    pub name: Option<&'static str>,
}

/// The capabilities request's VCP opcode, and the opcode its reply carries.
pub const VCP_CAPABILITIES: u8 = 0xF3;
pub const CAPS_REPLY: u8 = 0xE3;

/// Big enough for the longest fragment (32 bytes) plus its envelope.
pub const CAPS_REPLY_LEN: usize = 64;

/// The most fragments we will ask for, and the longest string we will keep:
/// the guards against a display that never sends its end marker.
pub const CAPS_MAX_ROUNDS: usize = 64;
pub const CAPS_MAX_BYTES: usize = 2048;

/// VCP feature code "Input Source".
pub const VCP_INPUT_SOURCE: u8 = 0x60;

/// The MCCS 2.2 name of input source `code`, if the standard names it.
pub open spec fn spec_input_source_name(code: u8) -> Option<&'static str> {
    match code {
        0x01 => Some("VGA 1"),
        0x02 => Some("VGA 2"),
        0x03 => Some("DVI 1"),
        0x04 => Some("DVI 2"),
        0x05 => Some("Composite 1"),
        0x06 => Some("Composite 2"),
        0x07 => Some("S-Video 1"),
        0x08 => Some("S-Video 2"),
        0x09 => Some("Tuner 1"),
        0x0A => Some("Tuner 2"),
        0x0B => Some("Tuner 3"),
        0x0C => Some("Component 1"),
        0x0D => Some("Component 2"),
        0x0E => Some("Component 3"),
        0x0F => Some("DisplayPort 1"),
        0x10 => Some("DisplayPort 2"),
        0x11 => Some("HDMI 1"),
        0x12 => Some("HDMI 2"),
        _ => None,
    }
}

/// The names MCCS 2.2 gives the values of VCP 0x60, the input source: two
/// VGA inputs, two DVI, two composite, two S-Video, three tuners, three
/// component inputs, two DisplayPort and two HDMI, numbered in code order;
/// every other code has no standard name.
pub proof fn lemma_input_names_follow_mccs(code: u8)
    ensures
        code == 0x01 ==> spec_input_source_name(code) == Some("VGA 1"),
        code == 0x02 ==> spec_input_source_name(code) == Some("VGA 2"),
        code == 0x03 ==> spec_input_source_name(code) == Some("DVI 1"),
        code == 0x04 ==> spec_input_source_name(code) == Some("DVI 2"),
        code == 0x05 ==> spec_input_source_name(code) == Some("Composite 1"),
        code == 0x06 ==> spec_input_source_name(code) == Some("Composite 2"),
        code == 0x07 ==> spec_input_source_name(code) == Some("S-Video 1"),
        code == 0x08 ==> spec_input_source_name(code) == Some("S-Video 2"),
        code == 0x09 ==> spec_input_source_name(code) == Some("Tuner 1"),
        code == 0x0A ==> spec_input_source_name(code) == Some("Tuner 2"),
        code == 0x0B ==> spec_input_source_name(code) == Some("Tuner 3"),
        code == 0x0C ==> spec_input_source_name(code) == Some("Component 1"),
        code == 0x0D ==> spec_input_source_name(code) == Some("Component 2"),
        code == 0x0E ==> spec_input_source_name(code) == Some("Component 3"),
        code == 0x0F ==> spec_input_source_name(code) == Some("DisplayPort 1"),
        code == 0x10 ==> spec_input_source_name(code) == Some("DisplayPort 2"),
        code == 0x11 ==> spec_input_source_name(code) == Some("HDMI 1"),
        code == 0x12 ==> spec_input_source_name(code) == Some("HDMI 2"),
        code == 0 || code > 0x12 ==> spec_input_source_name(code) is None,
{
}

/// The MCCS 2.2 names for VCP 0x60's values.
///
/// These are the standard's names, not the labels printed next to the
/// monitor's sockets — the display does not say which physical port is
/// "DisplayPort 1".
pub fn input_source_name(code: u8) -> (r: Option<&'static str>)
    ensures
        r == spec_input_source_name(code),
{
    match code {
        0x01 => Some("VGA 1"),
        0x02 => Some("VGA 2"),
        0x03 => Some("DVI 1"),
        0x04 => Some("DVI 2"),
        0x05 => Some("Composite 1"),
        0x06 => Some("Composite 2"),
        0x07 => Some("S-Video 1"),
        0x08 => Some("S-Video 2"),
        0x09 => Some("Tuner 1"),
        0x0A => Some("Tuner 2"),
        0x0B => Some("Tuner 3"),
        0x0C => Some("Component 1"),
        0x0D => Some("Component 2"),
        0x0E => Some("Component 3"),
        0x0F => Some("DisplayPort 1"),
        0x10 => Some("DisplayPort 2"),
        0x11 => Some("HDMI 1"),
        0x12 => Some("HDMI 2"),
        _ => None,
    }
}

// ---------------------------------------------------------------------------
// The grammar of a capabilities string.
// ---------------------------------------------------------------------------

/// `char::is_ascii_hexdigit`.
pub open spec fn is_hex_char(c: char) -> bool {
    ('0' <= c <= '9') || ('a' <= c <= 'f') || ('A' <= c <= 'F')
}

/// Where the bracket that is open at `i`, with `depth` brackets open in all,
/// is closed: the index of its `)`, if the string closes it.
pub open spec fn closing_from(s: Seq<char>, i: int, depth: nat) -> Option<int>
    decreases s.len() - i,
{
    if i < 0 || i >= s.len() {
        None
    } else if s[i] == '(' {
        closing_from(s, i + 1, depth + 1)
    } else if s[i] == ')' {
        if depth <= 1 {
            Some(i)
        } else {
            closing_from(s, i + 1, (depth - 1) as nat)
        }
    } else {
        closing_from(s, i + 1, depth)
    }
}

/// `pat` occurs in `s` at `i`.
pub open spec fn occurs_at(s: Seq<char>, pat: Seq<char>, i: int) -> bool {
    0 <= i && i + pat.len() <= s.len() && s.subrange(i, i + pat.len()) == pat
}

/// `i` is the first place `pat` occurs in `s`.
pub open spec fn first_occurrence_at(s: Seq<char>, pat: Seq<char>, i: int) -> bool {
    occurs_at(s, pat, i) && forall|j: int| 0 <= j < i ==> !#[trigger] occurs_at(s, pat, j)
}

/// Where `pat` first occurs in `s`, if anywhere.
pub open spec fn first_occurrence(s: Seq<char>, pat: Seq<char>) -> Option<int> {
    if exists|i: int| first_occurrence_at(s, pat, i) {
        Some(choose|i: int| first_occurrence_at(s, pat, i))
    } else {
        None
    }
}

/// The bounds of the body of `header...)` at the first occurrence of
/// `header` (which ends in an open bracket), brackets balanced, if it closes.
///
/// The search is deliberately not anchored to the top level: it takes the
/// first occurrence of `header` anywhere in the string.
pub open spec fn section_bounds(s: Seq<char>, header: Seq<char>) -> Option<(int, int)> {
    match first_occurrence(s, header) {
        Some(p) => match closing_from(s, p + header.len(), 1) {
            Some(c) => Some((p + header.len(), c)),
            None => None,
        },
        None => None,
    }
}

/// The end of the run of characters from `i` that satisfy `p`.
pub open spec fn run_end(s: Seq<char>, i: int, p: spec_fn(char) -> bool) -> int
    decreases s.len() - i,
{
    if 0 <= i < s.len() && p(s[i]) {
        run_end(s, i + 1, p)
    } else {
        i
    }
}

pub proof fn lemma_run_end(s: Seq<char>, i: int, p: spec_fn(char) -> bool)
    requires
        0 <= i <= s.len(),
    ensures
        i <= run_end(s, i, p) <= s.len(),
        forall|k: int| i <= k < run_end(s, i, p) ==> p(#[trigger] s[k]),
        run_end(s, i, p) < s.len() ==> !p(s[run_end(s, i, p)]),
        i < s.len() && p(s[i]) ==> run_end(s, i, p) > i,
    decreases s.len() - i,
{
    if i < s.len() && p(s[i]) {
        lemma_run_end(s, i + 1, p);
    }
}

pub proof fn lemma_closing_from(s: Seq<char>, i: int, depth: nat)
    requires
        0 <= i,
    ensures
        closing_from(s, i, depth) matches Some(c) ==> i <= c < s.len() && s[c] == ')',
    decreases s.len() - i,
{
    if i < s.len() {
        if s[i] == '(' {
            lemma_closing_from(s, i + 1, depth + 1);
        } else if s[i] == ')' {
            if depth > 1 {
                lemma_closing_from(s, i + 1, (depth - 1) as nat);
            }
        } else {
            lemma_closing_from(s, i + 1, depth);
        }
    }
}

/// A character that is not ASCII whitespace.
pub open spec fn not_space(c: char) -> bool {
    !is_ascii_space(c)
}

/// The characters that make up a token of a value list.
pub open spec fn space_free() -> spec_fn(char) -> bool {
    |c: char| not_space(c)
}

/// The characters that make up a feature code.
pub open spec fn hex_digit() -> spec_fn(char) -> bool {
    |c: char| is_hex_char(c)
}

/// The codes listed from `i` on, after `acc`: every whitespace-separated
/// token that parses as a hex byte, in order, each code once.
pub open spec fn hex_list_from(s: Seq<char>, i: int, acc: Seq<u8>) -> Seq<u8>
    decreases s.len() - i,
{
    if i < 0 || i >= s.len() {
        acc
    } else if is_ascii_space(s[i]) {
        hex_list_from(s, i + 1, acc)
    } else {
        let e = run_end(s, i, space_free());
        let next = match parse_unsigned(s.subrange(i, e), 16, 0xFF) {
            Some(v) => if acc.contains(v as u8) {
                acc
            } else {
                acc.push(v as u8)
            },
            None => acc,
        };
        if i < e <= s.len() {
            hex_list_from(s, e, next)
        } else {
            acc
        }
    }
}

/// `0F 10 11 12 ` → `[15, 16, 17, 18]`, in the order given, without repeats.
pub open spec fn spec_parse_hex_list(s: Seq<char>) -> Seq<u8> {
    hex_list_from(s, 0, Seq::empty())
}

/// The input source codes found walking a `vcp(...)` body from `at`: feature
/// codes, each optionally followed by its bracketed value list, separated by
/// ASCII whitespace. Only feature 0x60's list is wanted; anything that does
/// not fit the grammar yields nothing.
pub open spec fn vcp_walk(s: Seq<char>, at: int) -> Seq<u8>
    decreases s.len() - at,
{
    if at < 0 || at >= s.len() {
        Seq::empty()
    } else if is_ascii_space(s[at]) {
        vcp_walk(s, at + 1)
    } else {
        let e = run_end(s, at, hex_digit());
        if e <= at || e > s.len() {
            Seq::empty()
        } else {
            let code = parse_unsigned(s.subrange(at, e), 16, 0xFF);
            if e < s.len() && s[e] == '(' {
                match closing_from(s, e + 1, 1) {
                    None => Seq::empty(),
                    Some(c) => if code == Some(VCP_INPUT_SOURCE as nat) {
                        spec_parse_hex_list(s.subrange(e + 1, c))
                    } else if at < c < s.len() {
                        vcp_walk(s, c + 1)
                    } else {
                        Seq::empty()
                    },
                }
            } else {
                vcp_walk(s, e)
            }
        }
    }
}

/// The header of the section that lists the VCP features.
pub open spec fn vcp_header() -> Seq<char> {
    seq!['v', 'c', 'p', '(']
}

/// The input sources VCP 0x60 lists in capabilities string `s`.
pub open spec fn spec_parse_input_codes(s: Seq<char>) -> Seq<u8> {
    match section_bounds(s, vcp_header()) {
        Some((b, e)) => vcp_walk(s.subrange(b, e), 0),
        None => Seq::empty(),
    }
}

proof fn lemma_hex_list_extends(s: Seq<char>, i: int, acc: Seq<u8>)
    requires
        acc.no_duplicates(),
    ensures
        hex_list_from(s, i, acc).no_duplicates(),
        hex_list_from(s, i, acc).len() >= acc.len(),
        hex_list_from(s, i, acc).subrange(0, acc.len() as int) == acc,
    decreases s.len() - i,
{
    if i < 0 || i >= s.len() {
        assert(acc.subrange(0, acc.len() as int) =~= acc);
    } else if is_ascii_space(s[i]) {
        lemma_hex_list_extends(s, i + 1, acc);
    } else {
        let e = run_end(s, i, space_free());
        let next = match parse_unsigned(s.subrange(i, e), 16, 0xFF) {
            Some(v) => if acc.contains(v as u8) {
                acc
            } else {
                acc.push(v as u8)
            },
            None => acc,
        };
        if i < e <= s.len() {
            lemma_hex_list_extends(s, e, next);
            let r = hex_list_from(s, e, next);
            assert(r.subrange(0, acc.len() as int) =~= r.subrange(0, next.len() as int).subrange(
                0,
                acc.len() as int,
            ));
            assert(next.subrange(0, acc.len() as int) =~= acc);
        } else {
            assert(acc.subrange(0, acc.len() as int) =~= acc);
        }
    }
}

proof fn lemma_vcp_walk_no_duplicates(s: Seq<char>, at: int)
    ensures
        vcp_walk(s, at).no_duplicates(),
    decreases s.len() - at,
{
    if at < 0 || at >= s.len() {
    } else if is_ascii_space(s[at]) {
        lemma_vcp_walk_no_duplicates(s, at + 1);
    } else {
        let e = run_end(s, at, hex_digit());
        if e <= at || e > s.len() {
        } else if e < s.len() && s[e] == '(' {
            match closing_from(s, e + 1, 1) {
                None => {},
                Some(c) => {
                    lemma_hex_list_extends(s.subrange(e + 1, c), 0, Seq::empty());
                    if at < c < s.len() {
                        lemma_vcp_walk_no_duplicates(s, c + 1);
                    }
                },
            }
        } else {
            lemma_vcp_walk_no_duplicates(s, e);
        }
    }
}

/// A value list names each code once, in the order of its first mention: the
/// codes found up to any point stay first, and no code is listed twice. The
/// input sources read from a capabilities string never repeat either.
pub proof fn lemma_codes_listed_once(s: Seq<char>, i: int, found: Seq<u8>)
    requires
        found.no_duplicates(),
    ensures
        hex_list_from(s, i, found).no_duplicates(),
        hex_list_from(s, i, found).len() >= found.len(),
        hex_list_from(s, i, found).subrange(0, found.len() as int) == found,
        spec_parse_hex_list(s).no_duplicates(),
        spec_parse_input_codes(s).no_duplicates(),
{
    lemma_hex_list_extends(s, i, found);
    lemma_hex_list_extends(s, 0, Seq::empty());
    match section_bounds(s, vcp_header()) {
        Some((b, e)) => lemma_vcp_walk_no_duplicates(s.subrange(b, e), 0),
        None => {},
    }
}

// ---------------------------------------------------------------------------
// Reading it.
// ---------------------------------------------------------------------------

/// `char::is_ascii_hexdigit`.
fn hex_char(c: char) -> (r: bool)
    ensures
        r == is_hex_char(c),
{
    ('0' <= c && c <= '9') || ('a' <= c && c <= 'f') || ('A' <= c && c <= 'F')
}

/// The characters `v[lo..hi]`, as a vector of their own.
fn slice_chars(v: &Vec<char>, lo: usize, hi: usize) -> (r: Vec<char>)
    requires
        lo <= hi <= v@.len(),
    ensures
        r@ == v@.subrange(lo as int, hi as int),
{
    let mut out: Vec<char> = Vec::new();
    let mut i = lo;
    while i < hi
        invariant
            lo <= i <= hi <= v@.len(),
            out@ == v@.subrange(lo as int, i as int),
        decreases hi - i,
    {
        out.push(v[i]);
        assert(v@.subrange(lo as int, i + 1) =~= v@.subrange(lo as int, i as int).push(v@[i as int]));
        i = i + 1;
    }
    out
}

/// Where the bracket open just before `from` is closed, if it is.
fn closing(v: &Vec<char>, from: usize) -> (r: Option<usize>)
    requires
        from <= v@.len(),
    ensures
        match r {
            Some(c) => closing_from(v@, from as int, 1) == Some(c as int),
            None => closing_from(v@, from as int, 1) is None,
        },
{
    // Brackets open beyond the one being closed.
    let mut extra: usize = 0;
    let mut i = from;
    while i < v.len()
        invariant
            from <= i <= v@.len(),
            extra <= i - from,
            closing_from(v@, from as int, 1) == closing_from(v@, i as int, (extra + 1) as nat),
        decreases v@.len() - i,
    {
        let c = v[i];
        if c == '(' {
            extra = extra + 1;
        } else if c == ')' {
            if extra == 0 {
                return Some(i);
            }
            extra = extra - 1;
        }
        i = i + 1;
    }
    None
}

/// Two places that are each the first occurrence of `pat` are one place.
proof fn lemma_first_occurrence_unique(s: Seq<char>, pat: Seq<char>, a: int, b: int)
    requires
        first_occurrence_at(s, pat, a),
        first_occurrence_at(s, pat, b),
    ensures
        a == b,
{
    if a < b {
        assert(!occurs_at(s, pat, a));
    } else if b < a {
        assert(!occurs_at(s, pat, b));
    }
}

/// Where `pat` first occurs in `v`, if anywhere.
fn find_text(v: &Vec<char>, pat: &Vec<char>) -> (r: Option<usize>)
    ensures
        match r {
            Some(p) => first_occurrence(v@, pat@) == Some(p as int),
            None => first_occurrence(v@, pat@) is None,
        },
{
    let n = pat.len();
    assert(pat@.subrange(0, n as int) =~= pat@);
    if n > v.len() {
        assert forall|j: int| !#[trigger] first_occurrence_at(v@, pat@, j) by {}
        return None;
    }
    if n == 0 {
        assert(v@.subrange(0, 0) =~= pat@);
        assert(occurs_at(v@, pat@, 0));
        assert(first_occurrence_at(v@, pat@, 0));
        proof {
            let p = choose|p: int| first_occurrence_at(v@, pat@, p);
            lemma_first_occurrence_unique(v@, pat@, p, 0);
        }
        return Some(0);
    }
    let total = v.len();
    let last = total - n;
    let mut i: usize = 0;
    while i <= last
        invariant
            total == v@.len(),
            0 < n <= v@.len(),
            n == pat@.len(),
            last + n == v@.len(),
            i <= last + 1,
            pat@.subrange(0, n as int) == pat@,
            forall|j: int| 0 <= j < i ==> !#[trigger] occurs_at(v@, pat@, j),
        decreases last + 1 - i,
    {
        assert(i + n <= v@.len());
        if range_eq(v, i, i + n, pat, 0, n) {
            assert(first_occurrence_at(v@, pat@, i as int));
            proof {
                let p = choose|p: int| first_occurrence_at(v@, pat@, p);
                lemma_first_occurrence_unique(v@, pat@, p, i as int);
            }
            return Some(i);
        }
        i = i + 1;
    }
    assert forall|j: int| !#[trigger] first_occurrence_at(v@, pat@, j) by {
        if 0 <= j < i {
        } else {
            assert(!occurs_at(v@, pat@, j));
        }
    }
    None
}

/// The bounds of the body of `header...)`, brackets balanced, or `None`.
fn section_body(v: &Vec<char>, header: &Vec<char>) -> (r: Option<(usize, usize)>)
    ensures
        match r {
            Some((b, e)) => section_bounds(v@, header@) == Some((b as int, e as int)),
            None => section_bounds(v@, header@) is None,
        },
{
    let p = match find_text(v, header) {
        Some(p) => p,
        None => return None,
    };
    proof {
        let q = choose|i: int| first_occurrence_at(v@, header@, i);
        assert(first_occurrence_at(v@, header@, q));
    }
    let total = v.len();
    assert(p + header@.len() <= total);
    let start = p + header.len();
    match closing(v, start) {
        Some(c) => Some((start, c)),
        None => None,
    }
}

/// Is `code` in `codes` already?
fn has_code(codes: &Vec<u8>, code: u8) -> (r: bool)
    ensures
        r == codes@.contains(code),
{
    let mut i: usize = 0;
    while i < codes.len()
        invariant
            i <= codes@.len(),
            forall|j: int| 0 <= j < i ==> codes@[j] != code,
        decreases codes@.len() - i,
    {
        if codes[i] == code {
            assert(codes@[i as int] == code);
            return true;
        }
        i = i + 1;
    }
    false
}

/// `0F 10 11 12 ` → `[15, 16, 17, 18]`, in the order given, without repeats.
fn parse_hex_list(s: &Vec<char>) -> (r: Vec<u8>)
    ensures
        r@ == spec_parse_hex_list(s@),
{
    let mut codes: Vec<u8> = Vec::new();
    let mut i: usize = 0;
    while i < s.len()
        invariant
            i <= s@.len(),
            spec_parse_hex_list(s@) == hex_list_from(s@, i as int, codes@),
        decreases s@.len() - i,
    {
        if ascii_space(s[i]) {
            i = i + 1;
        } else {
            let start = i;
            proof {
                lemma_run_end(s@, start as int, space_free());
            }
            while i < s.len() && !ascii_space(s[i])
                invariant
                    start <= i <= s@.len(),
                    run_end(s@, start as int, space_free()) == run_end(s@, i as int, space_free()),
                decreases s@.len() - i,
            {
                i = i + 1;
            }
            let ghost before = codes@;
            match parse_uint(s, start, i, 16, 0xFF) {
                Some(v) => {
                    let code = v as u8;
                    if !has_code(&codes, code) {
                        codes.push(code);
                    }
                },
                None => {},
            }
            assert(hex_list_from(s@, start as int, before) == hex_list_from(s@, i as int, codes@));
        }
    }
    codes
}

/// Walks a `vcp(...)` body for feature 0x60's value list.
fn walk_vcp(s: &Vec<char>) -> (r: Vec<u8>)
    ensures
        r@ == vcp_walk(s@, 0),
{
    let mut at: usize = 0;
    while at < s.len()
        invariant
            at <= s@.len(),
            vcp_walk(s@, 0) == vcp_walk(s@, at as int),
        decreases s@.len() - at,
    {
        if ascii_space(s[at]) {
            at = at + 1;
        } else {
            let start = at;
            proof {
                lemma_run_end(s@, start as int, hex_digit());
            }
            while at < s.len() && hex_char(s[at])
                invariant
                    start <= at <= s@.len(),
                    run_end(s@, start as int, hex_digit()) == run_end(s@, at as int, hex_digit()),
                decreases s@.len() - at,
            {
                at = at + 1;
            }
            if start == at {
                // Neither a separator nor a feature code: the string is not
                // shaped the way the standard says.
                return Vec::new();
            }
            let code = parse_uint(s, start, at, 16, 0xFF);
            if at < s.len() && s[at] == '(' {
                proof {
                    lemma_closing_from(s@, at + 1, 1);
                }
                let close = match closing(s, at + 1) {
                    Some(c) => c,
                    None => return Vec::new(),
                };
                let wanted = match code {
                    Some(v) => v == 0x60,
                    None => false,
                };
                if wanted {
                    let values = slice_chars(s, at + 1, close);
                    return parse_hex_list(&values);
                }
                at = close + 1;
            }
        }
    }
    Vec::new()
}

/// The input sources VCP 0x60 lists, straight out of a capabilities string.
///
/// The `vcp(...)` section is a flat run of two-digit hex feature codes, each
/// optionally followed by a bracketed list of the values it accepts:
///
/// ```text
/// vcp(02 04 14(01 05 06) 60(0F 10 11 12 ) 86(01 02))
/// ```
///
/// Only feature 0x60's values are wanted. Searching for the text `60(` would
/// also hit a `60` sitting inside some other feature's value list, so the
/// section is walked properly. Anything that does not parse yields an empty
/// list: a guessed input source would switch the screen to the wrong machine.
pub fn parse_input_codes(caps: &str) -> (r: Vec<u8>)
    ensures
        r@ == spec_parse_input_codes(caps@),
{
    let all = chars_of(caps);
    let header: Vec<char> = vec!['v', 'c', 'p', '('];
    assert(header@ =~= vcp_header());
    let (b, e) = match section_body(&all, &header) {
        Some(bounds) => bounds,
        None => return Vec::new(),
    };
    proof {
        let p = choose|i: int| first_occurrence_at(all@, vcp_header(), i);
        lemma_closing_from(all@, p + 4, 1);
    }
    let vcp = slice_chars(&all, b, e);
    walk_vcp(&vcp)
}

/// Every input source a capabilities string lists, each with its MCCS name.
pub fn input_sources(caps: &str) -> (r: Vec<InputSource>)
    ensures
        r@.len() == spec_parse_input_codes(caps@).len(),
        forall|i: int| 0 <= i < r@.len() ==> #[trigger] r@[i].code == spec_parse_input_codes(caps@)[i]
            && r@[i].name == spec_input_source_name(r@[i].code),
{
    let codes = parse_input_codes(caps);
    let mut out: Vec<InputSource> = Vec::new();
    let mut i: usize = 0;
    while i < codes.len()
        invariant
            i <= codes@.len(),
            codes@ == spec_parse_input_codes(caps@),
            out@.len() == i,
            forall|j: int| 0 <= j < i ==> #[trigger] out@[j].code == codes@[j] && out@[j].name
                == spec_input_source_name(out@[j].code),
        decreases codes@.len() - i,
    {
        let code = codes[i];
        out.push(InputSource { code, name: input_source_name(code) });
        i = i + 1;
    }
    out
}

// ---------------------------------------------------------------------------
// Fetching it, fragment by fragment.
// ---------------------------------------------------------------------------

/// The high and the low byte of `v`, big-endian.
pub open spec fn hi_byte(v: u16) -> u8 {
    (v / 256) as u8
}

pub open spec fn lo_byte(v: u16) -> u8 {
    (v % 256) as u8
}

/// The DDC/CI "Capabilities Request" for the fragment starting at `offset`:
/// header, opcode, big-endian offset, and a checksum seeded with `0x6E` alone
/// that does **not** cover the I2C data address, unlike the write packet.
pub open spec fn spec_caps_packet(offset: u16) -> Seq<u8> {
    seq![
        0x83u8,
        VCP_CAPABILITIES,
        hi_byte(offset),
        lo_byte(offset),
        0x6Eu8 ^ 0x83u8 ^ VCP_CAPABILITIES ^ hi_byte(offset) ^ lo_byte(offset),
    ]
}

pub fn caps_packet(offset: u16) -> (r: [u8; 5])
    ensures
        r@ == spec_caps_packet(offset),
{
    let hi = (offset >> 8) as u8;
    let lo = (offset & 0xFF) as u8;
    assert(hi == hi_byte(offset)) by (bit_vector)
        requires
            hi == (offset >> 8) as u8,
    ;
    assert(lo == lo_byte(offset)) by (bit_vector)
        requires
            lo == (offset & 0xFF) as u8,
    ;
    let checksum = 0x6Eu8 ^ 0x83u8 ^ VCP_CAPABILITIES ^ hi ^ lo;
    let r = [0x83u8, VCP_CAPABILITIES, hi, lo, checksum];
    assert(r@ =~= spec_caps_packet(offset));
    r
}

/// The echoed offset and the payload of a capabilities reply, or `None`.
///
/// `buf[1]` holds the message length with its high bit set; three of those
/// bytes are the opcode and the echoed offset, so the rest is payload. A
/// length of exactly three is the standard's end marker, an empty fragment,
/// and 35 is the ceiling: three bytes of envelope plus the 32 of payload a
/// fragment may carry. A longer claim is refused rather than trusted, because
/// honouring it would splice the tail of the read buffer, which is bus data
/// and not ours, into the capabilities string.
pub open spec fn spec_parse_fragment(buf: Seq<u8>) -> Option<(u16, Seq<u8>)> {
    if buf.len() < 5 || buf[2] != CAPS_REPLY || buf[1] < 0x80 {
        None
    } else {
        let len = buf[1] - 0x80;
        if len < 3 || len > 35 || 2 + len > buf.len() {
            None
        } else {
            Some(((buf[3] * 256 + buf[4]) as u16, buf.subrange(5, 2 + len)))
        }
    }
}

pub fn parse_fragment(buf: &[u8]) -> (r: Option<(u16, Vec<u8>)>)
    ensures
        match spec_parse_fragment(buf@) {
            Some((offset, data)) => r matches Some((o, d)) && o == offset && d@ == data,
            None => r is None,
        },
{
    let n = buf.len();
    if n < 5 || buf[2] != CAPS_REPLY || buf[1] < 0x80 {
        return None;
    }
    let len = (buf[1] - 0x80) as usize;
    if len < 3 || len > 35 || 2 + len > n {
        return None;
    }
    let offset = (buf[3] as u16) * 256 + (buf[4] as u16);
    let mut data: Vec<u8> = Vec::new();
    let mut i: usize = 5;
    while i < 2 + len
        invariant
            n == buf@.len(),
            5 <= i <= 2 + len <= n,
            data@ == buf@.subrange(5, i as int),
        decreases 2 + len - i,
    {
        data.push(buf[i]);
        assert(buf@.subrange(5, i + 1) =~= buf@.subrange(5, i as int).push(buf@[i as int]));
        i = i + 1;
    }
    Some((offset, data))
}

/// A capabilities reply carries its offset big-endian in bytes 3 and 4, and
/// its payload after them: a reply that echoes exactly the two offset bytes of
/// the request for `offset` reads back as that offset, whatever the offset,
/// and every fragment that parses echoes `buf[3] * 256 + buf[4]`.
pub proof fn lemma_fragment_echoes_the_requested_offset(offset: u16, buf: Seq<u8>)
    ensures
        spec_parse_fragment(buf) matches Some((echoed, data)) ==> {
            &&& echoed as int == buf[3] as int * 256 + buf[4] as int
            &&& data == buf.subrange(5, buf[1] - 0x80 + 2)
        },
        ({
            let request = spec_caps_packet(offset);
            buf.len() >= 5 && buf[2] == CAPS_REPLY && 0x83 <= buf[1] <= 0x80 + 35 && buf[1] - 0x80 + 2
                <= buf.len() && buf[3] == request[2] && buf[4] == request[3]
        }) ==> spec_parse_fragment(buf) == Some((offset, buf.subrange(5, buf[1] - 0x80 + 2))),
{
    if buf.len() >= 5 {
        let v = buf[3] as int * 256 + buf[4] as int;
        assert(0 <= v <= 0xFFFF);
    }
}

/// A reply that echoes the offset the walk asked for, with a non-empty
/// fragment that still fits, is taken and the walk goes on past it, at any
/// offset; in particular a walk is never refused for a string longer than
/// 256 bytes.
pub proof fn lemma_echoed_fragment_is_taken(
    assembled: Seq<u8>,
    offset: u16,
    rounds: nat,
    reply: Seq<u8>,
    rest: Seq<Seq<u8>>,
)
    requires
        rounds < CAPS_MAX_ROUNDS,
        reply.len() >= 6,
        reply[2] == CAPS_REPLY,
        0x84 <= reply[1] <= 0x80 + 35,
        reply[1] - 0x80 + 2 <= reply.len(),
        reply[3] == spec_caps_packet(offset)[2],
        reply[4] == spec_caps_packet(offset)[3],
        assembled.len() + (reply[1] - 0x80 - 3) <= CAPS_MAX_BYTES,
    ensures
        ({
            let data = reply.subrange(5, reply[1] - 0x80 + 2);
            caps_run(assembled, offset, rounds, seq![reply] + rest) == caps_run(
                assembled + data,
                advanced(offset, data.len()),
                rounds + 1,
                rest,
            )
        }),
{
    lemma_fragment_echoes_the_requested_offset(offset, reply);
    let replies = seq![reply] + rest;
    assert(replies[0] == reply);
    assert(replies.drop_first() =~= rest);
}

/// `String::from_utf8`: succeeds exactly when `bytes` are well-formed UTF-8,
/// and then holds the text they encode.
#[verifier::external_body]
fn string_from_utf8(bytes: Vec<u8>) -> (r: Option<String>)
    ensures
        r is Some <==> valid_utf8(bytes@),
        r matches Some(s) ==> s@ == decode_utf8(bytes@),
{
    String::from_utf8(bytes).ok()
}

/// What one reply to a capabilities request leads to.
#[derive(Debug)]
pub enum CapsOutcome {
    /// The fragment was taken; ask for the next one.
    More,
    /// The empty fragment that ends the string arrived: the whole string.
    Finished(String),
    /// The reply was not a fragment at the offset asked for, the string grew
    /// past [`CAPS_MAX_BYTES`], or it is not UTF-8. A half-read capabilities
    /// string would list fewer input sources than the display has, which is
    /// worse than listing none.
    Failed,
}

/// Reading a capabilities string: which fragment to ask for next, and what
/// each reply means. The caller sends each request, waits, reads the reply
/// and hands it back, until the walk finishes or fails.
pub struct CapsWalk {
    assembled: Vec<u8>,
    offset: u16,
    rounds: usize,
}

/// `offset` moved past `n` more bytes, stopping at the top of the range.
pub open spec fn advanced(offset: u16, n: nat) -> u16 {
    if offset + n > u16::MAX {
        u16::MAX
    } else {
        (offset + n) as u16
    }
}

impl CapsWalk {
    /// The bytes taken so far, in order.
    pub closed spec fn assembled(&self) -> Seq<u8> {
        self.assembled@
    }

    /// The offset the next request asks for.
    pub closed spec fn offset(&self) -> u16 {
        self.offset
    }

    /// How many requests have been handed out.
    pub closed spec fn rounds(&self) -> nat {
        self.rounds as nat
    }

    /// Never more than [`CAPS_MAX_ROUNDS`] requests, never more than
    /// [`CAPS_MAX_BYTES`] kept.
    pub open spec fn wf(&self) -> bool {
        &&& self.rounds() <= CAPS_MAX_ROUNDS
        &&& self.assembled().len() <= CAPS_MAX_BYTES
    }

    /// A walk that has asked for nothing yet.
    pub fn new() -> (r: CapsWalk)
        ensures
            r.wf(),
            r.assembled() == Seq::<u8>::empty(),
            r.offset() == 0,
            r.rounds() == 0,
    {
        CapsWalk { assembled: Vec::new(), offset: 0, rounds: 0 }
    }

    /// The next request to send, or `None` once [`CAPS_MAX_ROUNDS`] requests
    /// have gone out: a display that never sends its end marker is given up on.
    pub fn request(&mut self) -> (r: Option<[u8; 5]>)
        requires
            old(self).wf(),
        ensures
            final(self).wf(),
            final(self).assembled() == old(self).assembled(),
            final(self).offset() == old(self).offset(),
            old(self).rounds() < CAPS_MAX_ROUNDS ==> {
                &&& r matches Some(p) && p@ == spec_caps_packet(old(self).offset())
                &&& final(self).rounds() == old(self).rounds() + 1
            },
            old(self).rounds() >= CAPS_MAX_ROUNDS ==> r is None && final(self).rounds() == old(
                self,
            ).rounds(),
    {
        if self.rounds >= CAPS_MAX_ROUNDS {
            return None;
        }
        self.rounds = self.rounds + 1;
        Some(caps_packet(self.offset))
    }

    /// Takes the reply to the last request.
    pub fn accept(&mut self, reply: &[u8]) -> (r: CapsOutcome)
        requires
            old(self).wf(),
        ensures
            final(self).wf(),
            final(self).rounds() == old(self).rounds(),
            match spec_parse_fragment(reply@) {
                None => r is Failed,
                Some((echoed, data)) => if echoed != old(self).offset() {
                    r is Failed
                } else if data.len() == 0 {
                    if valid_utf8(old(self).assembled()) {
                        r matches CapsOutcome::Finished(s) && s@ == decode_utf8(old(self).assembled())
                    } else {
                        r is Failed
                    }
                } else if old(self).assembled().len() + data.len() > CAPS_MAX_BYTES {
                    r is Failed
                } else {
                    &&& r is More
                    &&& final(self).assembled() == old(self).assembled() + data
                    &&& final(self).offset() == advanced(old(self).offset(), data.len())
                },
            },
    {
        let (echoed, data) = match parse_fragment(reply) {
            Some(fragment) => fragment,
            None => return CapsOutcome::Failed,
        };
        if echoed != self.offset {
            return CapsOutcome::Failed;
        }
        if data.len() == 0 {
            let mut bytes: Vec<u8> = Vec::new();
            std::mem::swap(&mut bytes, &mut self.assembled);
            return match string_from_utf8(bytes) {
                Some(text) => CapsOutcome::Finished(text),
                None => CapsOutcome::Failed,
            };
        }
        if self.assembled.len() + data.len() > CAPS_MAX_BYTES {
            return CapsOutcome::Failed;
        }
        let ghost before = self.assembled@;
        let ghost rounds = self.rounds;
        let ghost offset = self.offset;
        let mut i: usize = 0;
        while i < data.len()
            invariant
                self.rounds == rounds,
                self.offset == offset,
                i <= data@.len(),
                before.len() + data@.len() <= CAPS_MAX_BYTES,
                self.assembled@ == before + data@.subrange(0, i as int),
                self.rounds <= CAPS_MAX_ROUNDS,
            decreases data@.len() - i,
        {
            self.assembled.push(data[i]);
            assert(data@.subrange(0, i + 1) =~= data@.subrange(0, i as int).push(data@[i as int]));
            i = i + 1;
        }
        assert(data@.subrange(0, data@.len() as int) =~= data@);
        let step = data.len();
        self.offset = if step > 0xFFFF || self.offset as usize + step > 0xFFFF {
            0xFFFF
        } else {
            (self.offset as usize + step) as u16
        };
        CapsOutcome::More
    }
}

/// The bytes a whole walk ends with when it starts from `assembled`, `offset`
/// and `rounds` and is answered with `replies`, one per request, in order:
/// the assembled bytes when the end marker arrives at the offset asked for
/// and they are UTF-8, `None` for every failure, for giving up after
/// [`CAPS_MAX_ROUNDS`] requests, and for running out of replies.
pub open spec fn caps_run(assembled: Seq<u8>, offset: u16, rounds: nat, replies: Seq<Seq<u8>>) -> Option<
    Seq<u8>,
>
    decreases replies.len(),
{
    if rounds >= CAPS_MAX_ROUNDS || replies.len() == 0 {
        None
    } else {
        match spec_parse_fragment(replies[0]) {
            None => None,
            Some((echoed, data)) => if echoed != offset {
                None
            } else if data.len() == 0 {
                if valid_utf8(assembled) {
                    Some(assembled)
                } else {
                    None
                }
            } else if assembled.len() + data.len() > CAPS_MAX_BYTES {
                None
            } else {
                caps_run(
                    assembled + data,
                    advanced(offset, data.len()),
                    rounds + 1,
                    replies.drop_first(),
                )
            },
        }
    }
}

/// The first `n` of `replies`, or all of them when there are fewer.
pub open spec fn first_replies(replies: Seq<Seq<u8>>, n: nat) -> Seq<Seq<u8>> {
    if replies.len() <= n {
        replies
    } else {
        replies.take(n as int)
    }
}

/// A capabilities walk, whatever the display answers, reads no reply past
/// its [`CAPS_MAX_ROUNDS`]th request, and ends with either a failure or a
/// UTF-8 string of at most [`CAPS_MAX_BYTES`] bytes that starts with what was
/// assembled before.
pub proof fn lemma_caps_walk_is_bounded(assembled: Seq<u8>, offset: u16, rounds: nat, replies: Seq<Seq<u8>>)
    requires
        assembled.len() <= CAPS_MAX_BYTES,
        rounds <= CAPS_MAX_ROUNDS,
    ensures
        caps_run(assembled, offset, rounds, replies) == caps_run(
            assembled,
            offset,
            rounds,
            first_replies(replies, (CAPS_MAX_ROUNDS - rounds) as nat),
        ),
        caps_run(assembled, offset, rounds, replies) matches Some(b) ==> {
            &&& b.len() <= CAPS_MAX_BYTES
            &&& valid_utf8(b)
            &&& b.len() >= assembled.len()
            &&& b.subrange(0, assembled.len() as int) == assembled
        },
    decreases replies.len(),
{
    let n = (CAPS_MAX_ROUNDS - rounds) as nat;
    let taken = first_replies(replies, n);
    if rounds >= CAPS_MAX_ROUNDS || replies.len() == 0 {
        assert(taken.len() == 0);
    } else {
        assert(taken[0] == replies[0]);
        assert(taken.drop_first() =~= first_replies(replies.drop_first(), (n - 1) as nat));
        match spec_parse_fragment(replies[0]) {
            None => {},
            Some((echoed, data)) => {
                if echoed == offset && data.len() > 0 && assembled.len() + data.len()
                    <= CAPS_MAX_BYTES {
                    lemma_caps_walk_is_bounded(
                        assembled + data,
                        advanced(offset, data.len()),
                        rounds + 1,
                        replies.drop_first(),
                    );
                    match caps_run(assembled, offset, rounds, replies) {
                        Some(b) => {
                            assert(b.subrange(0, assembled.len() as int) =~= b.subrange(
                                0,
                                (assembled + data).len() as int,
                            ).subrange(0, assembled.len() as int));
                            assert((assembled + data).subrange(0, assembled.len() as int)
                                =~= assembled);
                        },
                        None => {},
                    }
                } else {
                    assert(assembled.subrange(0, assembled.len() as int) =~= assembled);
                }
            },
        }
    }
}


} // verus!
