//! Character-level helpers shared by the parsers: whitespace classes,
//! trimming, ASCII case folding and number parsing, all over `Seq<char>`.

use vstd::prelude::*;

verus! {

/// The characters of `s`, in order.
pub fn chars_of(s: &str) -> (v: Vec<char>)
    ensures
        v@ == s@,
{
    let mut v: Vec<char> = Vec::new();
    for c in it: s.chars()
        invariant
            v@ == it.seq().take(it.index() as int),
    {
        v.push(c);
    }
    v
}

/// `String::push`: appends the character `c` to the end of `s`, and nothing
/// else.
#[verifier::external_body]
pub(crate) fn push_char(s: &mut String, c: char)
    ensures
        final(s)@ == old(s)@.push(c),
{
    s.push(c);
}

/// A string holding exactly the characters of `v[lo..hi]`.
pub fn string_of(v: &Vec<char>, lo: usize, hi: usize) -> (s: String)
    requires
        lo <= hi <= v@.len(),
    ensures
        s@ == v@.subrange(lo as int, hi as int),
{
    let mut s = String::new();
    let mut i = lo;
    while i < hi
        invariant
            lo <= i <= hi <= v@.len(),
            s@ == v@.subrange(lo as int, i as int),
        decreases hi - i,
    {
        push_char(&mut s, v[i]);
        assert(v@.subrange(lo as int, i + 1) == v@.subrange(lo as int, i as int).push(v@[i as int]));
        i = i + 1;
    }
    s
}

/// Appends every character of `t` to `s`.
pub fn push_str(s: &mut String, t: &str)
    ensures
        final(s)@ == old(s)@ + t@,
{
    let cs = chars_of(t);
    let ghost start = s@;
    let mut i: usize = 0;
    while i < cs.len()
        invariant
            i <= cs@.len(),
            cs@ == t@,
            s@ == start + cs@.take(i as int),
        decreases cs@.len() - i,
    {
        push_char(s, cs[i]);
        assert(cs@.take(i + 1) == cs@.take(i as int).push(cs@[i as int]));
        i = i + 1;
    }
    assert(cs@.take(cs@.len() as int) == cs@);
}

/// The characters of `a` followed by those of `b`.
pub fn concat(a: &str, b: &str) -> (s: String)
    ensures
        s@ == a@ + b@,
{
    let mut s = String::new();
    push_str(&mut s, a);
    push_str(&mut s, b);
    assert(Seq::<char>::empty() + a@ == a@);
    s
}

/// `char::is_whitespace`: the Unicode `White_Space` property.
pub open spec fn is_unicode_space(c: char) -> bool {
    let u = c as u32;
    ||| 0x09 <= u <= 0x0D
    ||| u == 0x20
    ||| u == 0x85
    ||| u == 0xA0
    ||| u == 0x1680
    ||| 0x2000 <= u <= 0x200A
    ||| u == 0x2028
    ||| u == 0x2029
    ||| u == 0x202F
    ||| u == 0x205F
    ||| u == 0x3000
}

/// `char::is_ascii_whitespace`: space, tab, line feed, form feed, return.
pub open spec fn is_ascii_space(c: char) -> bool {
    c == ' ' || c == '\t' || c == '\n' || c == '\x0C' || c == '\r'
}

pub fn unicode_space(c: char) -> (b: bool)
    ensures
        b == is_unicode_space(c),
{
    let u = c as u32;
    (0x09 <= u && u <= 0x0D) || u == 0x20 || u == 0x85 || u == 0xA0 || u == 0x1680 || (0x2000 <= u
        && u <= 0x200A) || u == 0x2028 || u == 0x2029 || u == 0x202F || u == 0x205F || u == 0x3000
}

pub fn ascii_space(c: char) -> (b: bool)
    ensures
        b == is_ascii_space(c),
{
    c == ' ' || c == '\t' || c == '\n' || c == '\x0C' || c == '\r'
}

/// `s` with every leading character that satisfies `p` removed.
pub open spec fn trim_front(s: Seq<char>, p: spec_fn(char) -> bool) -> Seq<char>
    decreases s.len(),
{
    if s.len() > 0 && p(s[0]) {
        trim_front(s.drop_first(), p)
    } else {
        s
    }
}

/// `s` with every trailing character that satisfies `p` removed.
pub open spec fn trim_back(s: Seq<char>, p: spec_fn(char) -> bool) -> Seq<char>
    decreases s.len(),
{
    if s.len() > 0 && p(s.last()) {
        trim_back(s.drop_last(), p)
    } else {
        s
    }
}

/// `s` with the characters satisfying `p` removed from both ends.
pub open spec fn trim_by(s: Seq<char>, p: spec_fn(char) -> bool) -> Seq<char> {
    trim_back(trim_front(s, p), p)
}

/// What `str::trim` leaves of `s`.
pub open spec fn trimmed(s: Seq<char>) -> Seq<char> {
    trim_by(s, |c: char| is_unicode_space(c))
}

pub proof fn lemma_trim_front_skip(s: Seq<char>, p: spec_fn(char) -> bool, i: int)
    requires
        0 <= i <= s.len(),
        forall|k: int| 0 <= k < i ==> p(#[trigger] s[k]),
    ensures
        trim_front(s, p) == trim_front(s.subrange(i, s.len() as int), p),
    decreases i,
{
    if i > 0 {
        let t = s.drop_first();
        assert forall|k: int| 0 <= k < i - 1 implies p(#[trigger] t[k]) by {
            assert(t[k] == s[k + 1]);
        }
        lemma_trim_front_skip(t, p, i - 1);
        assert(t.subrange(i - 1, t.len() as int) == s.subrange(i, s.len() as int));
    } else {
        assert(s.subrange(0, s.len() as int) == s);
    }
}

pub proof fn lemma_trim_back_skip(s: Seq<char>, p: spec_fn(char) -> bool, j: int)
    requires
        0 <= j <= s.len(),
        forall|k: int| j <= k < s.len() ==> p(#[trigger] s[k]),
    ensures
        trim_back(s, p) == trim_back(s.subrange(0, j), p),
    decreases s.len() - j,
{
    if j < s.len() {
        let t = s.drop_last();
        assert forall|k: int| j <= k < t.len() implies p(#[trigger] t[k]) by {
            assert(t[k] == s[k]);
        }
        lemma_trim_back_skip(t, p, j);
        assert(t.subrange(0, j) == s.subrange(0, j));
    } else {
        assert(s.subrange(0, j) == s);
    }
}

/// The bounds `[lo, hi)` of `v[from..to]` once Unicode white space
/// are trimmed from both ends, as `str::trim` does.
pub fn trim_bounds(v: &Vec<char>, from: usize, to: usize) -> (r: (usize, usize))
    requires
        from <= to <= v@.len(),
    ensures
        from <= r.0 <= r.1 <= to,
        v@.subrange(r.0 as int, r.1 as int) == trimmed(v@.subrange(from as int, to as int)),
{
    let ghost s = v@.subrange(from as int, to as int);
    let ghost p = |c: char| is_unicode_space(c);
    let mut lo = from;
    while lo < to && unicode_space(v[lo])
        invariant
            from <= lo <= to <= v@.len(),
            forall|k: int| from <= k < lo ==> is_unicode_space(#[trigger] v@[k]),
        decreases to - lo,
    {
        lo = lo + 1;
    }
    proof {
        assert forall|k: int| 0 <= k < lo - from implies p(#[trigger] s[k]) by {
            assert(s[k] == v@[from + k]);
        }
        lemma_trim_front_skip(s, p, lo - from);
        let rest = s.subrange(lo - from, s.len() as int);
        assert(rest == v@.subrange(lo as int, to as int));
        if lo < to {
            assert(rest[0] == v@[lo as int]);
            assert(trim_front(rest, p) == rest);
        } else {
            assert(rest.len() == 0);
        }
        assert(trim_front(s, p) == v@.subrange(lo as int, to as int));
    }
    let mut hi = to;
    while hi > lo && unicode_space(v[hi - 1])
        invariant
            from <= lo <= hi <= to <= v@.len(),
            forall|k: int| hi <= k < to ==> is_unicode_space(#[trigger] v@[k]),
        decreases hi,
    {
        hi = hi - 1;
    }
    proof {
        let f = v@.subrange(lo as int, to as int);
        assert forall|k: int| hi - lo <= k < f.len() implies p(#[trigger] f[k]) by {
            assert(f[k] == v@[lo + k]);
        }
        lemma_trim_back_skip(f, p, hi - lo);
        let g = f.subrange(0, hi - lo);
        assert(g == v@.subrange(lo as int, hi as int));
        if hi > lo {
            assert(g.last() == v@[hi - 1]);
        }
        assert(trim_back(g, p) == g);
    }
    (lo, hi)
}

/// White space or NUL: what pads a fixed-width text field a device sends.
pub open spec fn is_padding(c: char) -> bool {
    is_unicode_space(c) || c == '\0'
}

/// What `trim_matches(|c| c.is_whitespace() || c == '\0')` leaves of `s`.
pub open spec fn unpadded(s: Seq<char>) -> Seq<char> {
    trim_by(s, |c: char| is_padding(c))
}

/// The bounds `[lo, hi)` of `v` once padding is trimmed from both ends.
pub fn unpadded_bounds(v: &Vec<char>) -> (r: (usize, usize))
    ensures
        r.0 <= r.1 <= v@.len(),
        v@.subrange(r.0 as int, r.1 as int) == unpadded(v@),
{
    let ghost s = v@;
    let ghost p = |c: char| is_padding(c);
    let to = v.len();
    let mut lo: usize = 0;
    while lo < to && (unicode_space(v[lo]) || v[lo] == '\0')
        invariant
            lo <= to == v@.len(),
            forall|k: int| 0 <= k < lo ==> is_padding(#[trigger] v@[k]),
        decreases to - lo,
    {
        lo = lo + 1;
    }
    proof {
        assert forall|k: int| 0 <= k < lo implies p(#[trigger] s[k]) by {}
        lemma_trim_front_skip(s, p, lo as int);
        let rest = s.subrange(lo as int, s.len() as int);
        if lo < to {
            assert(rest[0] == v@[lo as int]);
            assert(trim_front(rest, p) == rest);
        } else {
            assert(rest.len() == 0);
        }
    }
    let mut hi = to;
    while hi > lo && (unicode_space(v[hi - 1]) || v[hi - 1] == '\0')
        invariant
            lo <= hi <= to == v@.len(),
            forall|k: int| hi <= k < to ==> is_padding(#[trigger] v@[k]),
        decreases hi,
    {
        hi = hi - 1;
    }
    proof {
        let f = v@.subrange(lo as int, to as int);
        assert forall|k: int| hi - lo <= k < f.len() implies p(#[trigger] f[k]) by {
            assert(f[k] == v@[lo + k]);
        }
        lemma_trim_back_skip(f, p, hi - lo);
        let g = f.subrange(0, hi - lo);
        assert(g == v@.subrange(lo as int, hi as int));
        if hi > lo {
            assert(g.last() == v@[hi - 1]);
        }
        assert(trim_back(g, p) == g);
    }
    (lo, hi)
}

/// The lower-case hex digit for `n`, which is below 16.
pub open spec fn nibble_char(n: u32) -> char {
    if n < 10 {
        ((48 + n) as u8) as char
    } else {
        ((87 + n) as u8) as char
    }
}

/// The `k`-th of the eight hex digits of `v`, most significant first.
pub open spec fn hex_digit_of(v: u32, k: int) -> char {
    nibble_char((v >> ((28 - 4 * k) as u32)) & 0xF)
}

/// `v` as eight lower-case hex digits, as `{:08x}` prints it.
pub open spec fn hex8(v: u32) -> Seq<char> {
    Seq::new(8, |k: int| hex_digit_of(v, k))
}

pub fn hex_text(v: u32) -> (r: String)
    ensures
        r@ == hex8(v),
{
    let mut out = String::new();
    let mut k: u32 = 0;
    while k < 8
        invariant
            k <= 8,
            out@ == Seq::new(k as nat, |j: int| hex_digit_of(v, j)),
        decreases 8 - k,
    {
        let shift = 28 - 4 * k;
        let n = (v >> shift) & 0xF;
        assert(n < 16) by (bit_vector)
            requires
                n == (v >> shift) & 0xF,
        ;
        let c = if n < 10 {
            (48 + n as u8) as char
        } else {
            (87 + n as u8) as char
        };
        assert(c == hex_digit_of(v, k as int));
        push_char(&mut out, c);
        assert(out@ =~= Seq::new((k + 1) as nat, |j: int| hex_digit_of(v, j)));
        k = k + 1;
    }
    assert(out@ =~= hex8(v));
    out
}

/// `v` as four lower-case hex digits, as `{:04x}` prints it.
pub open spec fn hex4(v: u16) -> Seq<char> {
    hex8(v as u32).subrange(4, 8)
}

pub fn hex4_text(v: u16) -> (r: String)
    ensures
        r@ == hex4(v),
{
    let all = chars_of(hex_text(v as u32).as_str());
    string_of(&all, 4, 8)
}

/// `n` in decimal, as `{}` prints it.
pub open spec fn decimal(n: nat) -> Seq<char>
    decreases n,
{
    if n < 10 {
        seq![((48 + n) as u8) as char]
    } else {
        decimal(n / 10).push(((48 + n % 10) as u8) as char)
    }
}

/// Appends `n` in decimal to `s`.
pub fn push_decimal(s: &mut String, n: u64)
    ensures
        final(s)@ == old(s)@ + decimal(n as nat),
    decreases n,
{
    if n >= 10 {
        push_decimal(s, n / 10);
    }
    let d = (n % 10) as u8;
    push_char(s, (48 + d) as char);
    assert(s@ =~= old(s)@ + decimal(n as nat));
}

/// `n` in decimal.
pub fn decimal_text(n: u64) -> (r: String)
    ensures
        r@ == decimal(n as nat),
{
    let mut s = String::new();
    push_decimal(&mut s, n);
    assert(s@ =~= decimal(n as nat));
    s
}

/// ASCII letters folded to lower case; everything else as it is.
pub open spec fn lower_char(c: char) -> char {
    if 'A' <= c <= 'Z' {
        ((c as u32) + 32) as char
    } else {
        c
    }
}

/// `str::to_ascii_lowercase`, character by character.
pub open spec fn ascii_lower(s: Seq<char>) -> Seq<char> {
    s.map_values(|c: char| lower_char(c))
}

pub fn lower(c: char) -> (r: char)
    ensures
        r == lower_char(c),
{
    if 'A' <= c && c <= 'Z' {
        let u: u8 = ((c as u32) + 32) as u8;
        assert(0x61 <= u <= 0x7A);
        u as char
    } else {
        c
    }
}

/// Do `a[alo..ahi]` and `b[blo..bhi]` hold the same characters?
pub fn range_eq(a: &Vec<char>, alo: usize, ahi: usize, b: &Vec<char>, blo: usize, bhi: usize) -> (r:
    bool)
    requires
        alo <= ahi <= a@.len(),
        blo <= bhi <= b@.len(),
    ensures
        r == (a@.subrange(alo as int, ahi as int) == b@.subrange(blo as int, bhi as int)),
{
    if ahi - alo != bhi - blo {
        assert(a@.subrange(alo as int, ahi as int).len() != b@.subrange(blo as int, bhi as int).len());
        return false;
    }
    let n = ahi - alo;
    let mut k: usize = 0;
    while k < n
        invariant
            k <= n,
            n == ahi - alo,
            n == bhi - blo,
            alo <= ahi <= a@.len(),
            blo <= bhi <= b@.len(),
            forall|j: int| alo <= j < alo + k ==> a@[j] == b@[j - alo + blo],
        decreases n - k,
    {
        if a[alo + k] != b[blo + k] {
            assert(a@.subrange(alo as int, ahi as int)[k as int] != b@.subrange(
                blo as int,
                bhi as int,
            )[k as int]);
            return false;
        }
        k = k + 1;
    }
    assert(a@.subrange(alo as int, ahi as int) =~= b@.subrange(blo as int, bhi as int));
    true
}

/// Do `a` and `b` spell the same text?
pub fn str_eq(a: &str, b: &str) -> (r: bool)
    ensures
        r == (a@ == b@),
{
    let x = chars_of(a);
    let y = chars_of(b);
    assert(x@.subrange(0, x@.len() as int) == x@);
    assert(y@.subrange(0, y@.len() as int) == y@);
    range_eq(&x, 0, x.len(), &y, 0, y.len())
}

/// Do `a` and `b` agree once ASCII letters are folded to lower case?
pub fn eq_ignore_ascii_case(a: &Vec<char>, b: &Vec<char>) -> (r: bool)
    ensures
        r == (ascii_lower(a@) == ascii_lower(b@)),
{
    if a.len() != b.len() {
        assert(ascii_lower(a@).len() != ascii_lower(b@).len());
        return false;
    }
    let mut k: usize = 0;
    while k < a.len()
        invariant
            k <= a@.len(),
            a@.len() == b@.len(),
            forall|j: int| 0 <= j < k ==> lower_char(a@[j]) == lower_char(b@[j]),
        decreases a@.len() - k,
    {
        if lower(a[k]) != lower(b[k]) {
            assert(ascii_lower(a@)[k as int] != ascii_lower(b@)[k as int]);
            return false;
        }
        k = k + 1;
    }
    assert(ascii_lower(a@) =~= ascii_lower(b@));
    true
}

/// The value of one digit in base 10 or 16 (either case), if it is one.
pub open spec fn digit_value(c: char, radix: nat) -> Option<nat> {
    if '0' <= c <= '9' {
        if (c as nat) - ('0' as nat) < radix {
            Some(((c as nat) - ('0' as nat)) as nat)
        } else {
            None
        }
    } else if radix == 16 && 'a' <= c <= 'f' {
        Some(((c as nat) - ('a' as nat) + 10) as nat)
    } else if radix == 16 && 'A' <= c <= 'F' {
        Some(((c as nat) - ('A' as nat) + 10) as nat)
    } else {
        None
    }
}

/// The number `s` spells in `radix`, if every character is a digit.
pub open spec fn digits_value(s: Seq<char>, radix: nat) -> Option<nat>
    decreases s.len(),
{
    if s.len() == 0 {
        Some(0)
    } else {
        match (digits_value(s.drop_last(), radix), digit_value(s.last(), radix)) {
            (Some(v), Some(d)) => Some(v * radix + d),
            _ => None,
        }
    }
}

/// What `from_str_radix` makes of `s` for an unsigned type whose largest
/// value is `max`: an optional `+`, then at least one digit, and no overflow.
pub open spec fn parse_unsigned(s: Seq<char>, radix: nat, max: nat) -> Option<nat> {
    let body = if s.len() > 0 && s[0] == '+' {
        s.drop_first()
    } else {
        s
    };
    if body.len() == 0 {
        None
    } else {
        match digits_value(body, radix) {
            Some(v) if v <= max => Some(v),
            _ => None,
        }
    }
}

fn digit(c: char, radix: u32) -> (r: Option<u32>)
    requires
        radix == 10 || radix == 16,
    ensures
        match digit_value(c, radix as nat) {
            Some(d) => r == Some(d as u32),
            None => r is None,
        },
        r matches Some(d) ==> d < radix,
{
    if '0' <= c && c <= '9' {
        let d = (c as u32) - ('0' as u32);
        if d < radix {
            Some(d)
        } else {
            None
        }
    } else if radix == 16 && 'a' <= c && c <= 'f' {
        Some((c as u32) - ('a' as u32) + 10)
    } else if radix == 16 && 'A' <= c && c <= 'F' {
        Some((c as u32) - ('A' as u32) + 10)
    } else {
        None
    }
}

proof fn lemma_digits_grow(s: Seq<char>, radix: nat, i: int)
    requires
        radix == 10 || radix == 16,
        0 <= i <= s.len(),
        digits_value(s, radix) is Some,
    ensures
        digits_value(s.subrange(0, i), radix) is Some,
        digits_value(s.subrange(0, i), radix)->0 <= digits_value(s, radix)->0,
    decreases s.len() - i,
{
    if i == s.len() {
        assert(s.subrange(0, i) == s);
    } else {
        let t = s.drop_last();
        assert(t.subrange(0, i) == s.subrange(0, i));
        lemma_digits_grow(t, radix, i);
        let v = digits_value(t, radix)->0;
        assert(v <= v * radix) by (nonlinear_arith)
            requires
                radix >= 1,
        ;
    }
}

/// `from_str_radix` over `v[lo..hi]` for an unsigned type whose largest value
/// is `max`.
pub fn parse_uint(v: &Vec<char>, lo: usize, hi: usize, radix: u32, max: u32) -> (r: Option<u32>)
    requires
        lo <= hi <= v@.len(),
        radix == 10 || radix == 16,
        max <= 0xFFFF,
    ensures
        match parse_unsigned(v@.subrange(lo as int, hi as int), radix as nat, max as nat) {
            Some(n) => r == Some(n as u32),
            None => r is None,
        },
{
    let ghost s = v@.subrange(lo as int, hi as int);
    let start = if lo < hi && v[lo] == '+' {
        lo + 1
    } else {
        lo
    };
    let ghost body = v@.subrange(start as int, hi as int);
    assert(body == (if s.len() > 0 && s[0] == '+' {
        s.drop_first()
    } else {
        s
    }));
    if start == hi {
        return None;
    }
    let mut acc: u32 = 0;
    let mut i = start;
    while i < hi
        invariant
            lo <= start <= i <= hi <= v@.len(),
            radix == 10 || radix == 16,
            max <= 0xFFFF,
            body == v@.subrange(start as int, hi as int),
            s == v@.subrange(lo as int, hi as int),
            body == (if s.len() > 0 && s[0] == '+' {
                s.drop_first()
            } else {
                s
            }),
            body.len() > 0,
            digits_value(v@.subrange(start as int, i as int), radix as nat) == Some(acc as nat),
            acc <= max,
        decreases hi - i,
    {
        let ghost pre = v@.subrange(start as int, i as int);
        let ghost next = v@.subrange(start as int, i + 1);
        assert(next.drop_last() == pre);
        assert(next.last() == v@[i as int]);
        match digit(v[i], radix) {
            None => {
                proof {
                    assert(digits_value(next, radix as nat) is None);
                    if digits_value(body, radix as nat) is Some {
                        lemma_digits_grow(body, radix as nat, i + 1 - start);
                        assert(body.subrange(0, i + 1 - start) == next);
                    }
                    assert(parse_unsigned(s, radix as nat, max as nat) is None);
                }
                return None;
            },
            Some(d) => {
                let wide = (acc as u64) * (radix as u64) + (d as u64);
                assert(wide == acc * radix + d) by (nonlinear_arith)
                    requires
                        wide == (acc as u64) * (radix as u64) + (d as u64),
                        acc <= 0xFFFF,
                        radix <= 16,
                        d < 16,
                ;
                if wide > max as u64 {
                    proof {
                        assert(digits_value(next, radix as nat) == Some(wide as nat));
                        if digits_value(body, radix as nat) is Some {
                            lemma_digits_grow(body, radix as nat, i + 1 - start);
                            assert(body.subrange(0, i + 1 - start) == next);
                        }
                        assert(parse_unsigned(s, radix as nat, max as nat) is None);
                    }
                    return None;
                }
                acc = wide as u32;
            },
        }
        i = i + 1;
    }
    assert(v@.subrange(start as int, hi as int) == body);
    Some(acc)
}

} // verus!
