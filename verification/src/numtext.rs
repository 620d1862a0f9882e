//! Whitespace trimming and unsigned decimal parsing with the semantics of
//! std's `str::trim` and `u32::from_str`.

use vstd::prelude::*;

use crate::text::{is_digit, push_str, string_from_chars};

verus! {

/// Unicode `White_Space`, the set std's `char::is_whitespace` tests.
pub open spec fn is_space(c: char) -> bool {
    ('\u{9}' <= c <= '\u{d}') || c == ' ' || c == '\u{85}' || c == '\u{a0}' || c == '\u{1680}'
        || ('\u{2000}' <= c <= '\u{200a}') || c == '\u{2028}' || c == '\u{2029}' || c == '\u{202f}'
        || c == '\u{205f}' || c == '\u{3000}'
}

pub fn is_space_exec(c: char) -> (r: bool)
    ensures
        r == is_space(c),
{
    ('\u{9}' <= c && c <= '\u{d}') || c == ' ' || c == '\u{85}' || c == '\u{a0}' || c == '\u{1680}'
        || ('\u{2000}' <= c && c <= '\u{200a}') || c == '\u{2028}' || c == '\u{2029}' || c == '\u{202f}'
        || c == '\u{205f}' || c == '\u{3000}'
}

/// `s` without its leading white space.
pub open spec fn trim_start(s: Seq<char>) -> Seq<char>
    decreases s.len(),
{
    if s.len() > 0 && is_space(s[0]) {
        trim_start(s.drop_first())
    } else {
        s
    }
}

/// `s` without its trailing white space.
pub open spec fn trim_end(s: Seq<char>) -> Seq<char>
    decreases s.len(),
{
    if s.len() > 0 && is_space(s.last()) {
        trim_end(s.drop_last())
    } else {
        s
    }
}

/// `s` without leading and trailing white space.
pub open spec fn trimmed(s: Seq<char>) -> Seq<char> {
    trim_end(trim_start(s))
}

/// The characters of `s` without leading and trailing white space.
pub fn trim_chars(s: &str) -> (v: Vec<char>)
    ensures
        v@ == trimmed(s@),
{
    let cs = crate::text::chars_of(s);
    let n = cs.len();
    let mut i: usize = 0;
    assert(cs@.skip(0) =~= cs@);
    while i < n && is_space_exec(cs[i])
        invariant
            0 <= i <= n,
            n == cs.len(),
            cs@ == s@,
            trim_start(s@) == trim_start(cs@.skip(i as int)),
        decreases n - i,
    {
        assert(cs@.skip(i as int).drop_first() =~= cs@.skip(i + 1));
        i = i + 1;
    }
    let ghost mid = cs@.skip(i as int);
    assert(trim_start(s@) == mid);
    let mut j: usize = n;
    assert(mid.take(mid.len() as int) =~= mid);
    while j > i && is_space_exec(cs[j - 1])
        invariant
            i <= j <= n,
            n == cs.len(),
            mid == cs@.skip(i as int),
            trim_end(mid) == trim_end(mid.take(j - i)),
        decreases j,
    {
        assert(mid.take(j - i).drop_last() =~= mid.take(j - 1 - i));
        assert(mid.take(j - i).last() == cs@[j - 1]);
        j = j - 1;
    }
    let mut v: Vec<char> = Vec::new();
    let mut k: usize = i;
    while k < j
        invariant
            i <= k <= j <= n,
            n == cs.len(),
            v@ == cs@.subrange(i as int, k as int),
        decreases j - k,
    {
        v.push(cs[k]);
        k = k + 1;
        assert(v@ =~= cs@.subrange(i as int, k as int));
    }
    assert(mid.take(j - i) =~= cs@.subrange(i as int, j as int));
    v
}

/// Why a decimal number could not be read (std's `IntErrorKind`).
#[derive(Debug, Clone, Copy, PartialEq, Eq, Structural)]
pub enum IntErrorKind {
    Empty,
    InvalidDigit,
    PosOverflow,
}

/// std's text for each kind.
pub open spec fn int_error_text(k: IntErrorKind) -> Seq<char> {
    match k {
        IntErrorKind::Empty => "cannot parse integer from empty string"@,
        IntErrorKind::InvalidDigit => "invalid digit found in string"@,
        IntErrorKind::PosOverflow => "number too large to fit in target type"@,
    }
}

pub fn int_error_message(k: IntErrorKind) -> (s: String)
    ensures
        s@ == int_error_text(k),
{
    let mut out: Vec<char> = Vec::new();
    match k {
        IntErrorKind::Empty => push_str(&mut out, "cannot parse integer from empty string"),
        IntErrorKind::InvalidDigit => push_str(&mut out, "invalid digit found in string"),
        IntErrorKind::PosOverflow => push_str(&mut out, "number too large to fit in target type"),
    }
    string_from_chars(out.as_slice())
}

/// Value of the digit character `c`.
pub open spec fn digit_of(c: char) -> nat {
    (c as nat - '0' as nat) as nat
}

/// Reads the digits of `ds` from `i` on, starting from `acc`, failing on the
/// first character that is no digit or the first digit that takes the
/// value past `max`.
pub open spec fn scan_uint(ds: Seq<char>, i: int, acc: nat, max: nat) -> Result<nat, IntErrorKind>
    decreases ds.len() - i,
{
    if i < 0 || i >= ds.len() {
        Ok(acc)
    } else if !is_digit(ds[i]) {
        Err(IntErrorKind::InvalidDigit)
    } else if acc * 10 + digit_of(ds[i]) > max {
        Err(IntErrorKind::PosOverflow)
    } else {
        scan_uint(ds, i + 1, acc * 10 + digit_of(ds[i]), max)
    }
}

/// Unsigned decimal reading as std's `from_str` for an unsigned type whose
/// largest value is `max`: an optional `+`, then at least one digit.
pub open spec fn parse_uint_spec(s: Seq<char>, max: nat) -> Result<nat, IntErrorKind> {
    if s.len() == 0 {
        Err(IntErrorKind::Empty)
    } else if (s[0] == '+' || s[0] == '-') && s.len() == 1 {
        Err(IntErrorKind::InvalidDigit)
    } else if s[0] == '+' {
        scan_uint(s.drop_first(), 0, 0, max)
    } else {
        scan_uint(s, 0, 0, max)
    }
}

/// Reads an unsigned decimal number no larger than `max` from `cs`.
pub fn parse_uint_chars(cs: &[char], max: u32) -> (r: Result<u32, IntErrorKind>)
    ensures
        match parse_uint_spec(cs@, max as nat) {
            Ok(v) => r matches Ok(x) && x == v,
            Err(k) => r matches Err(x) && x == k,
        },
        r matches Ok(x) ==> x <= max,
{
    let n = cs.len();
    if n == 0 {
        return Err(IntErrorKind::Empty);
    }
    if (cs[0] == '+' || cs[0] == '-') && n == 1 {
        return Err(IntErrorKind::InvalidDigit);
    }
    let start: usize = if cs[0] == '+' {
        1
    } else {
        0
    };
    let ghost ds = if cs@[0] == '+' {
        cs@.drop_first()
    } else {
        cs@
    };
    assert(ds =~= cs@.skip(start as int));
    let mut acc: u64 = 0;
    let mut i: usize = start;
    while i < n
        invariant
            start <= i <= n,
            n == cs.len(),
            ds == cs@.skip(start as int),
            acc <= max,
            parse_uint_spec(cs@, max as nat) == scan_uint(ds, i - start, acc as nat, max as nat),
        decreases n - i,
    {
        let c = cs[i];
        assert(ds[i - start] == c);
        if !('0' <= c && c <= '9') {
            return Err(IntErrorKind::InvalidDigit);
        }
        let d = (c as u32 - '0' as u32) as u64;
        assert(d == digit_of(c)) by {
            assert(c as u32 as nat == c as nat);
        }
        let next = acc * 10 + d;
        if next > max as u64 {
            return Err(IntErrorKind::PosOverflow);
        }
        acc = next;
        i = i + 1;
    }
    Ok(acc as u32)
}

/// Reads an unsigned decimal number no larger than `max` from `s`.
pub fn parse_uint(s: &str, max: u32) -> (r: Result<u32, IntErrorKind>)
    ensures
        match parse_uint_spec(s@, max as nat) {
            Ok(v) => r matches Ok(x) && x == v,
            Err(k) => r matches Err(x) && x == k,
        },
        r matches Ok(x) ==> x <= max,
{
    let cs = crate::text::chars_of(s);
    parse_uint_chars(cs.as_slice(), max)
}

/// Reads `true` or `false`, as std's `bool::from_str`.
pub fn parse_bool_chars(cs: &[char]) -> (r: Option<bool>)
    ensures
        r == (if cs@ == "true"@ {
            Some(true)
        } else if cs@ == "false"@ {
            Some(false)
        } else {
            None
        }),
{
    if crate::text::chars_eq(cs, "true") {
        Some(true)
    } else if crate::text::chars_eq(cs, "false") {
        Some(false)
    } else {
        None
    }
}

} // verus!
