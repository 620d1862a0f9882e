//! Character-level helpers shared by the parsers and message builders.

use vstd::prelude::*;

verus! {

/// The characters of `s`, in order.
pub fn chars_of(s: &str) -> (v: Vec<char>)
    ensures
        v@ == s@,
{
    let mut v: Vec<char> = Vec::new();
    for c in it: s.chars()
        invariant
            v@ == it.seq().take(it.index() as int),
    {
        v.push(c);
    }
    v
}

/// Builds a `String` from a slice of characters.
///
/// Trusted: `String: FromIterator<char>` (`Iterator::collect`) yields the
/// characters in iteration order, as std documents.
#[verifier::external_body]
pub(crate) fn string_from_chars(v: &[char]) -> (s: String)
    ensures
        s@ == v@,
{
    v.iter().collect()
}

/// Appends all characters of `s` to `out`.
pub fn push_str(out: &mut Vec<char>, s: &str)
    ensures
        final(out)@ == old(out)@ + s@,
{
    let cs = chars_of(s);
    let mut i: usize = 0;
    while i < cs.len()
        invariant
            0 <= i <= cs.len(),
            cs@ == s@,
            out@ == old(out)@ + cs@.take(i as int),
        decreases cs.len() - i,
    {
        out.push(cs[i]);
        i = i + 1;
        assert(cs@.take(i as int) == cs@.take(i - 1) + seq![cs@[i - 1]]);
    }
    assert(cs@.take(cs.len() as int) == cs@);
}

/// Decides equality of two strings by their characters.
pub fn str_eq(a: &str, b: &str) -> (r: bool)
    ensures
        r == (a@ == b@),
{
    let x = chars_of(a);
    let y = chars_of(b);
    if x.len() != y.len() {
        return false;
    }
    let mut i: usize = 0;
    while i < x.len()
        invariant
            0 <= i <= x.len(),
            x@.len() == y@.len(),
            x@ == a@,
            y@ == b@,
            forall|j: int| 0 <= j < i ==> x@[j] == y@[j],
        decreases x.len() - i,
    {
        if x[i] != y[i] {
            return false;
        }
        i = i + 1;
    }
    assert(x@ =~= y@);
    true
}

/// Decimal digit character for `d < 10`.
pub open spec fn digit_char(d: nat) -> char {
    ((d + 48) as u8) as char
}

/// Decimal rendering of `n` without leading zeros (`"0"` for zero).
pub open spec fn decimal(n: nat) -> Seq<char>
    decreases n,
{
    if n < 10 {
        seq![digit_char(n)]
    } else {
        decimal(n / 10).push(digit_char(n % 10))
    }
}

/// Renders `n` in decimal and appends it to `out`.
pub fn push_decimal(out: &mut Vec<char>, n: u64)
    ensures
        final(out)@ == old(out)@ + decimal(n as nat),
    decreases n,
{
    if n < 10 {
        let c = ((n as u8) + 48) as char;
        out.push(c);
        assert(decimal(n as nat) == seq![c]);
    } else {
        push_decimal(out, n / 10);
        let c = (((n % 10) as u8) + 48) as char;
        out.push(c);
        assert(decimal(n as nat) == decimal((n / 10) as nat).push(c));
    }
}

/// Whether `c` is an ASCII decimal digit.
pub open spec fn is_digit(c: char) -> bool {
    '0' <= c <= '9'
}

/// Whether `c` is an ASCII letter.
pub open spec fn is_alpha(c: char) -> bool {
    ('a' <= c <= 'z') || ('A' <= c <= 'Z')
}

/// ASCII upper-case form of `c`.
pub open spec fn upper(c: char) -> char {
    if 'a' <= c <= 'z' {
        ((c as u32) - 32) as char
    } else {
        c
    }
}

/// ASCII case-insensitive equality of two character sequences.
pub open spec fn eq_ignore_case(a: Seq<char>, b: Seq<char>) -> bool {
    a.len() == b.len() && forall|i: int| 0 <= i < a.len() ==> upper(#[trigger] a[i]) == upper(b[i])
}

/// Decides `eq_ignore_case` on a character slice and a string.
pub fn chars_eq_ignore_case(a: &[char], b: &str) -> (r: bool)
    ensures
        r == eq_ignore_case(a@, b@),
{
    let bs = chars_of(b);
    if a.len() != bs.len() {
        return false;
    }
    let mut i: usize = 0;
    while i < a.len()
        invariant
            0 <= i <= a.len(),
            a@.len() == bs@.len(),
            bs@ == b@,
            forall|j: int| 0 <= j < i ==> upper(#[trigger] a@[j]) == upper(bs@[j]),
        decreases a.len() - i,
    {
        let x = a[i];
        let y = bs[i];
        let ux = if 'a' <= x && x <= 'z' { ((x as u32) - 32) as u8 as char } else { x };
        let uy = if 'a' <= y && y <= 'z' { ((y as u32) - 32) as u8 as char } else { y };
        assert(ux == upper(x));
        assert(uy == upper(y));
        if ux != uy {
            return false;
        }
        i = i + 1;
    }
    true
}

} // verus!

verus! {

/// Plain model of a list of strings.
pub open spec fn strings_view(v: Seq<String>) -> Seq<Seq<char>> {
    v.map_values(|s: String| s@)
}

/// Lexicographic order on character sequences, by code point; this is the
/// order of `String`'s `Ord`.
pub open spec fn seq_lt(a: Seq<char>, b: Seq<char>) -> bool
    decreases a.len(),
{
    if a.len() == 0 {
        b.len() > 0
    } else if b.len() == 0 {
        false
    } else if (a[0] as u32) < (b[0] as u32) {
        true
    } else if (a[0] as u32) > (b[0] as u32) {
        false
    } else {
        seq_lt(a.drop_first(), b.drop_first())
    }
}

/// Every element is strictly below every later one.
pub open spec fn sorted_strict(s: Seq<Seq<char>>) -> bool {
    forall|i: int, j: int| 0 <= i < j < s.len() ==> seq_lt(#[trigger] s[i], #[trigger] s[j])
}

pub proof fn lemma_seq_lt_transitive(a: Seq<char>, b: Seq<char>, c: Seq<char>)
    requires
        seq_lt(a, b),
        seq_lt(b, c),
    ensures
        seq_lt(a, c),
    decreases a.len(),
{
    if a.len() == 0 {
        assert(b.len() > 0);
        assert(c.len() > 0);
    } else {
        assert(b.len() > 0);
        assert(c.len() > 0);
        if (a[0] as u32) == (b[0] as u32) && (b[0] as u32) == (c[0] as u32) {
            lemma_seq_lt_transitive(a.drop_first(), b.drop_first(), c.drop_first());
        }
    }
}

pub proof fn lemma_seq_lt_total(a: Seq<char>, b: Seq<char>)
    ensures
        a == b || seq_lt(a, b) || seq_lt(b, a),
    decreases a.len(),
{
    if a.len() > 0 && b.len() > 0 {
        if (a[0] as u32) == (b[0] as u32) {
            vstd::utf8::char_u32_cast(a[0], a[0] as u32);
            vstd::utf8::char_u32_cast(b[0], b[0] as u32);
            lemma_seq_lt_total(a.drop_first(), b.drop_first());
            if a.drop_first() == b.drop_first() {
                assert(a =~= seq![a[0]] + a.drop_first());
                assert(b =~= seq![b[0]] + b.drop_first());
            }
        }
    } else if a.len() == 0 && b.len() == 0 {
        assert(a =~= b);
    }
}

/// Decides `seq_lt` on two strings.
pub fn str_lt(a: &str, b: &str) -> (r: bool)
    ensures
        r == seq_lt(a@, b@),
{
    let x = chars_of(a);
    let y = chars_of(b);
    let mut i: usize = 0;
    assert(x@.skip(0) =~= x@);
    assert(y@.skip(0) =~= y@);
    while i < x.len() && i < y.len()
        invariant
            0 <= i <= x.len(),
            i <= y.len(),
            x@ == a@,
            y@ == b@,
            seq_lt(a@, b@) == seq_lt(x@.skip(i as int), y@.skip(i as int)),
        decreases x.len() - i,
    {
        let cx = x[i];
        let cy = y[i];
        assert(x@.skip(i as int)[0] == cx);
        assert(y@.skip(i as int)[0] == cy);
        let ux: u32 = cx as u32;
        let uy: u32 = cy as u32;
        if ux < uy {
            return true;
        }
        if ux > uy {
            return false;
        }
        assert(x@.skip(i as int).drop_first() =~= x@.skip(i + 1));
        assert(y@.skip(i as int).drop_first() =~= y@.skip(i + 1));
        i = i + 1;
    }
    i < y.len()
}

/// Position at which `nv` belongs in the strictly increasing `ov`: every
/// entry before it is below `nv`, and the entry there, if any, is not.
fn insertion_point(out: &Vec<String>, name: &str) -> (i: usize)
    requires
        sorted_strict(strings_view(out@)),
    ensures
        i <= out.len(),
        forall|j: int| 0 <= j < i ==> seq_lt(#[trigger] strings_view(out@)[j], name@),
        forall|j: int| i <= j < out.len() ==> !seq_lt(#[trigger] strings_view(out@)[j], name@),
{
    let ghost ov = strings_view(out@);
    let mut i: usize = 0;
    while i < out.len()
        invariant
            0 <= i <= out.len(),
            ov == strings_view(out@),
            sorted_strict(ov),
            forall|j: int| 0 <= j < i ==> seq_lt(#[trigger] ov[j], name@),
        decreases out.len() - i,
    {
        let lt = str_lt(out[i].as_str(), name);
        if !lt {
            proof {
                assert forall|j: int| i <= j < out.len() implies !seq_lt(#[trigger] ov[j], name@) by {
                    if j > i && seq_lt(ov[j], name@) {
                        lemma_seq_lt_transitive(ov[i as int], ov[j], name@);
                    }
                }
            }
            return i;
        }
        i = i + 1;
    }
    i
}

/// The distinct strings of `names`, in increasing order.
pub fn sorted_unique(names: &Vec<String>) -> (r: Vec<String>)
    ensures
        sorted_strict(strings_view(r@)),
        strings_view(r@).to_set() == strings_view(names@).to_set(),
{
    let mut out: Vec<String> = Vec::new();
    let mut k: usize = 0;
    assert(strings_view(names@.take(0)) =~= Seq::<Seq<char>>::empty());
    assert(strings_view(out@) =~= Seq::<Seq<char>>::empty());
    while k < names.len()
        invariant
            0 <= k <= names.len(),
            sorted_strict(strings_view(out@)),
            strings_view(out@).to_set() == strings_view(names@.take(k as int)).to_set(),
        decreases names.len() - k,
    {
        let name = &names[k];
        let ghost nv = name@;
        let ghost ov = strings_view(out@);
        let ghost before = strings_view(names@.take(k as int));
        let i = insertion_point(&out, name.as_str());
        assert(strings_view(names@.take(k + 1)) =~= before.push(nv));
        proof {
            before.lemma_push_to_set_commute(nv);
        }
        if i < out.len() && str_eq(out[i].as_str(), name.as_str()) {
            assert(ov[i as int] == nv);
            assert(ov.contains(nv));
            assert(ov.to_set().insert(nv) =~= ov.to_set());
        } else {
            proof {
                assert forall|j: int| i <= j < ov.len() implies seq_lt(nv, #[trigger] ov[j]) by {
                    lemma_seq_lt_total(ov[j], nv);
                    if j > i {
                        assert(seq_lt(ov[i as int], ov[j]));
                        assert(!seq_lt(ov[i as int], nv));
                    } else {
                        assert(ov[i as int] != nv);
                    }
                }
            }
            out.insert(i, name.clone());
            let ghost nov = strings_view(out@);
            assert(nov =~= ov.insert(i as int, nv));
            proof {
                assert forall|a: int, b: int| 0 <= a < b < nov.len() implies seq_lt(#[trigger] nov[a], #[trigger] nov[b]) by {
                    if b < i {
                        assert(nov[a] == ov[a] && nov[b] == ov[b]);
                    } else if a < i && b == i {
                        assert(nov[a] == ov[a]);
                    } else if a < i && b > i {
                        assert(nov[a] == ov[a] && nov[b] == ov[b - 1]);
                        lemma_seq_lt_transitive(ov[a], nv, ov[b - 1]);
                    } else if a == i {
                        assert(nov[b] == ov[b - 1]);
                    } else {
                        assert(nov[a] == ov[a - 1] && nov[b] == ov[b - 1]);
                    }
                }
                assert(nov.to_set() =~= ov.to_set().insert(nv)) by {
                    assert forall|x: Seq<char>| nov.to_set().contains(x) implies ov.to_set().insert(nv).contains(x) by {
                        assert(nov.contains(x));
                        let w = choose|w: int| 0 <= w < nov.len() && nov[w] == x;
                        if w < i {
                            assert(ov[w] == x);
                            assert(ov.contains(x));
                        } else if w > i {
                            assert(ov[w - 1] == x);
                            assert(ov.contains(x));
                        }
                    }
                    assert forall|x: Seq<char>| ov.to_set().insert(nv).contains(x) implies nov.to_set().contains(x) by {
                        if x == nv {
                            assert(nov[i as int] == x);
                            assert(nov.contains(x));
                        } else {
                            assert(ov.contains(x));
                            let w = choose|w: int| 0 <= w < ov.len() && ov[w] == x;
                            if w < i {
                                assert(nov[w] == x);
                            } else {
                                assert(nov[w + 1] == x);
                            }
                            assert(nov.contains(x));
                        }
                    }
                }
            }
        }
        k = k + 1;
    }
    assert(names@.take(names.len() as int) =~= names@);
    out
}

/// Decimal text of an integer, with a leading `-` when negative.
pub open spec fn int_text(n: int) -> Seq<char> {
    if n < 0 {
        seq!['-'] + decimal((-n) as nat)
    } else {
        decimal(n as nat)
    }
}

/// Appends `int_text(n)`.
pub fn push_int(out: &mut Vec<char>, n: i64)
    ensures
        final(out)@ == old(out)@ + int_text(n as int),
{
    if n < 0 {
        out.push('-');
        let m: u64 = if n == i64::MIN {
            9223372036854775808u64
        } else {
            (-n) as u64
        };
        push_decimal(out, m);
        assert(old(out)@ + seq!['-'] + decimal((-(n as int)) as nat) =~= old(out)@ + (seq!['-']
            + decimal((-(n as int)) as nat)));
    } else {
        push_decimal(out, n as u64);
    }
}

/// Whether `v` holds a string equal to `s`.
pub fn contains_str(v: &Vec<String>, s: &str) -> (r: bool)
    ensures
        r == strings_view(v@).contains(s@),
{
    let ghost sv = strings_view(v@);
    let mut i: usize = 0;
    while i < v.len()
        invariant
            0 <= i <= v.len(),
            sv == strings_view(v@),
            forall|k: int| 0 <= k < i ==> sv[k] != s@,
        decreases v.len() - i,
    {
        if str_eq(v[i].as_str(), s) {
            assert(sv[i as int] == s@);
            return true;
        }
        i = i + 1;
    }
    false
}

/// Decides equality of a character slice and a string.
pub fn chars_eq(a: &[char], b: &str) -> (r: bool)
    ensures
        r == (a@ == b@),
{
    let y = chars_of(b);
    if a.len() != y.len() {
        return false;
    }
    let mut i: usize = 0;
    while i < a.len()
        invariant
            0 <= i <= a.len(),
            a.len() == y.len(),
            y@ == b@,
            forall|k: int| 0 <= k < i ==> a@[k] == y@[k],
        decreases a.len() - i,
    {
        if a[i] != y[i] {
            return false;
        }
        i = i + 1;
    }
    assert(a@ =~= y@);
    true
}

} // verus!
