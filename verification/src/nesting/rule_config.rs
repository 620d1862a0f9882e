//! Dependency analysis of formula rules: which variables each rule reads,
//! which of them are other rules, who reads whom, which rules lie on a
//! cycle and how deep the chains of rule references go.

use vstd::prelude::*;

use super::metrics::RuleReport;
use crate::text::{push_str, sorted_strict, sorted_unique, str_eq, string_from_chars, strings_view};

verus! {

// ------------------------------------------------------------------
//  Variables of a formula
// ------------------------------------------------------------------

/// Pattern of a variable name: a C identifier.
pub open spec fn identifier_pattern() -> Seq<char> {
    "[A-Za-z_][A-Za-z0-9_]*"@
}

/// A character that can start an identifier: an ASCII letter or `_`.
pub open spec fn ident_start(c: char) -> bool {
    ('A' <= c <= 'Z') || ('a' <= c <= 'z') || c == '_'
}

/// A character that can continue an identifier: also an ASCII digit.
pub open spec fn ident_char(c: char) -> bool {
    ident_start(c) || ('0' <= c <= '9')
}

/// The identifiers of `t` read from the left, `cur` being the identifier
/// under way (empty when none is): each one starts at the first character
/// that can start one and runs as far as identifier characters go.
pub open spec fn ident_scan(t: Seq<char>, cur: Seq<char>) -> Seq<Seq<char>>
    decreases t.len(),
{
    if t.len() == 0 {
        if cur.len() > 0 {
            seq![cur]
        } else {
            Seq::empty()
        }
    } else if cur.len() > 0 {
        if ident_char(t[0]) {
            ident_scan(t.skip(1), cur.push(t[0]))
        } else {
            seq![cur] + ident_scan(t.skip(1), Seq::empty())
        }
    } else if ident_start(t[0]) {
        ident_scan(t.skip(1), seq![t[0]])
    } else {
        ident_scan(t.skip(1), Seq::empty())
    }
}

/// The successive matches of [`identifier_pattern`] in `t`: leftmost,
/// longest, not overlapping.
pub open spec fn identifier_matches(t: Seq<char>) -> Seq<Seq<char>> {
    ident_scan(t, Seq::empty())
}

/// All matches of the identifier pattern in `text` (`regex::Regex::new`,
/// then `Regex::find_iter` and `Match::as_str`).
///
/// Trusted: the regex crate finds leftmost-first, non-overlapping matches
/// and a greedy `*` runs as far as it can, so for this pattern, whose
/// classes are ASCII ranges, the matches are `identifier_matches(text)`.
/// The pattern is valid, so `Regex::new` does not fail on it.
#[verifier::external_body]
fn find_all_matches(pattern: &str, text: &str) -> (r: Vec<String>)
    requires
        pattern@ == identifier_pattern(),
    ensures
        strings_view(r@) == identifier_matches(text@),
{
    match regex::Regex::new(pattern) {
        Ok(re) => re.find_iter(text).map(|m| m.as_str().to_string()).collect(),
        Err(_) => Vec::new(),
    }
}

/// Words that are never variables.
pub open spec fn reserved(s: Seq<char>) -> bool {
    s == "true"@ || s == "false"@ || s == "and"@ || s == "or"@ || s == "not"@
}

/// Whether `s` is a word that is never a variable.
pub fn is_reserved(s: &str) -> (r: bool)
    ensures
        r == reserved(s@),
{
    str_eq(s, "true") || str_eq(s, "false") || str_eq(s, "and") || str_eq(s, "or") || str_eq(s, "not")
}

/// The matches that are not reserved words.
pub open spec fn unreserved(ms: Seq<Seq<char>>) -> Seq<Seq<char>>
    decreases ms.len(),
{
    if ms.len() == 0 {
        Seq::empty()
    } else if reserved(ms.last()) {
        unreserved(ms.drop_last())
    } else {
        unreserved(ms.drop_last()).push(ms.last())
    }
}

/// The variable names among identifier matches: reserved words dropped,
/// each name once, sorted.
pub fn variables_from_matches(ms: &Vec<String>) -> (r: Vec<String>)
    ensures
        sorted_strict(strings_view(r@)),
        strings_view(r@).to_set() == unreserved(strings_view(ms@)).to_set(),
{
    let mut kept: Vec<String> = Vec::new();
    let mut i: usize = 0;
    assert(strings_view(ms@).take(0) =~= Seq::<Seq<char>>::empty());
    while i < ms.len()
        invariant
            0 <= i <= ms.len(),
            strings_view(kept@) == unreserved(strings_view(ms@).take(i as int)),
        decreases ms.len() - i,
    {
        let ghost before = strings_view(kept@);
        assert(strings_view(ms@).take(i + 1).drop_last() =~= strings_view(ms@).take(i as int));
        if !is_reserved(ms[i].as_str()) {
            kept.push(ms[i].clone());
            assert(strings_view(kept@) =~= before.push(ms@[i as int]@));
        }
        i = i + 1;
    }
    assert(strings_view(ms@).take(ms.len() as int) =~= strings_view(ms@));
    sorted_unique(&kept)
}

/// The variable names of a formula: identifiers that are not reserved
/// words, each once, sorted.
pub fn extract_variables(expr: &str) -> (r: Vec<String>)
    ensures
        sorted_strict(strings_view(r@)),
        strings_view(r@).to_set() == unreserved(identifier_matches(expr@)).to_set(),
{
    let ms = find_all_matches("[A-Za-z_][A-Za-z0-9_]*", expr);
    variables_from_matches(&ms)
}

// ------------------------------------------------------------------
//  The reference graph
// ------------------------------------------------------------------

/// Index of the last rule named `x`, or -1. A name defined twice refers to
/// its last definition.
pub open spec fn owner(names: Seq<Seq<char>>, x: Seq<char>) -> int
    decreases names.len(),
{
    if names.len() == 0 {
        -1
    } else if names.last() == x {
        names.len() - 1
    } else {
        owner(names.drop_last(), x)
    }
}

/// The entries of `ds` that are the name of a rule other than `me`, in
/// order.
pub open spec fn other_rules(ds: Seq<Seq<char>>, names: Seq<Seq<char>>, me: Seq<char>) -> Seq<Seq<char>>
    decreases ds.len(),
{
    if ds.len() == 0 {
        Seq::empty()
    } else if names.contains(ds.last()) && ds.last() != me {
        other_rules(ds.drop_last(), names, me).push(ds.last())
    } else {
        other_rules(ds.drop_last(), names, me)
    }
}

/// The entries of `ds` that are no rule's name, in order.
pub open spec fn not_rules(ds: Seq<Seq<char>>, names: Seq<Seq<char>>) -> Seq<Seq<char>>
    decreases ds.len(),
{
    if ds.len() == 0 {
        Seq::empty()
    } else if !names.contains(ds.last()) {
        not_rules(ds.drop_last(), names).push(ds.last())
    } else {
        not_rules(ds.drop_last(), names)
    }
}

pub proof fn lemma_owner(names: Seq<Seq<char>>, x: Seq<char>)
    ensures
        names.contains(x) ==> 0 <= owner(names, x) < names.len() && names[owner(names, x)] == x,
        !names.contains(x) ==> owner(names, x) == -1,
        forall|j: int| owner(names, x) < j < names.len() ==> names[j] != x,
    decreases names.len(),
{
    if names.len() > 0 {
        lemma_owner(names.drop_last(), x);
        if names.drop_last().contains(x) {
            let k = choose|k: int| 0 <= k < names.drop_last().len() && names.drop_last()[k] == x;
            assert(names[k] == x);
        }
        if names.contains(x) && names.last() != x {
            let k = choose|k: int| 0 <= k < names.len() && names[k] == x;
            assert(k < names.len() - 1);
            assert(names.drop_last()[k] == x);
        }
        assert forall|j: int| owner(names, x) < j < names.len() implies names[j] != x by {
            if names.last() != x && j < names.len() - 1 {
                assert(names[j] == names.drop_last()[j]);
            }
        }
    }
}

/// Index of the last rule named `x`.
fn owner_of(names: &Vec<String>, x: &str) -> (r: Option<usize>)
    ensures
        match r {
            Some(i) => i == owner(strings_view(names@), x@),
            None => owner(strings_view(names@), x@) == -1,
        },
        r matches Some(i) ==> i < names.len(),
{
    let ghost nv = strings_view(names@);
    let mut found: Option<usize> = None;
    let mut i: usize = 0;
    assert(nv.take(0) =~= Seq::<Seq<char>>::empty());
    while i < names.len()
        invariant
            0 <= i <= names.len(),
            nv == strings_view(names@),
            match found {
                Some(j) => j < i && j == owner(nv.take(i as int), x@),
                None => owner(nv.take(i as int), x@) == -1,
            },
        decreases names.len() - i,
    {
        assert(nv.take(i + 1).drop_last() =~= nv.take(i as int));
        if str_eq(names[i].as_str(), x) {
            found = Some(i);
        }
        i = i + 1;
    }
    assert(nv.take(names.len() as int) =~= nv);
    found
}

/// `other_rules` of an executable list.
fn filter_other_rules(ds: &Vec<String>, names: &Vec<String>, me: &str) -> (r: Vec<String>)
    ensures
        strings_view(r@) == other_rules(strings_view(ds@), strings_view(names@), me@),
{
    let ghost dv = strings_view(ds@);
    let ghost nv = strings_view(names@);
    let mut out: Vec<String> = Vec::new();
    let mut i: usize = 0;
    assert(dv.take(0) =~= Seq::<Seq<char>>::empty());
    while i < ds.len()
        invariant
            0 <= i <= ds.len(),
            dv == strings_view(ds@),
            nv == strings_view(names@),
            strings_view(out@) == other_rules(dv.take(i as int), nv, me@),
        decreases ds.len() - i,
    {
        let ghost before = strings_view(out@);
        assert(dv.take(i + 1).drop_last() =~= dv.take(i as int));
        let is_rule = crate::text::contains_str(names, ds[i].as_str());
        if is_rule && !str_eq(ds[i].as_str(), me) {
            out.push(ds[i].clone());
            assert(strings_view(out@) =~= before.push(dv[i as int]));
        }
        i = i + 1;
    }
    assert(dv.take(ds.len() as int) =~= dv);
    out
}

/// `not_rules` of an executable list.
fn filter_not_rules(ds: &Vec<String>, names: &Vec<String>) -> (r: Vec<String>)
    ensures
        strings_view(r@) == not_rules(strings_view(ds@), strings_view(names@)),
{
    let ghost dv = strings_view(ds@);
    let ghost nv = strings_view(names@);
    let mut out: Vec<String> = Vec::new();
    let mut i: usize = 0;
    assert(dv.take(0) =~= Seq::<Seq<char>>::empty());
    while i < ds.len()
        invariant
            0 <= i <= ds.len(),
            dv == strings_view(ds@),
            nv == strings_view(names@),
            strings_view(out@) == not_rules(dv.take(i as int), nv),
        decreases ds.len() - i,
    {
        let ghost before = strings_view(out@);
        assert(dv.take(i + 1).drop_last() =~= dv.take(i as int));
        if !crate::text::contains_str(names, ds[i].as_str()) {
            out.push(ds[i].clone());
            assert(strings_view(out@) =~= before.push(dv[i as int]));
        }
        i = i + 1;
    }
    assert(dv.take(ds.len() as int) =~= dv);
    out
}

/// Rules the rule named `x` reads (as its last definition has them).
pub open spec fn kids(nv: Seq<Seq<char>>, dv: Seq<Seq<Seq<char>>>, x: Seq<char>) -> Seq<Seq<char>> {
    let o = owner(nv, x);
    if 0 <= o < dv.len() {
        other_rules(dv[o], nv, x)
    } else {
        Seq::empty()
    }
}

/// The rule named `a` reaches `b` in at most `k` references.
pub open spec fn reaches(nv: Seq<Seq<char>>, dv: Seq<Seq<Seq<char>>>, a: Seq<char>, b: Seq<char>, k: nat) -> bool
    decreases k, 0nat,
{
    k > 0 && reach_any(nv, dv, kids(nv, dv, a), b, (k - 1) as nat)
}

/// Some rule of `ks` is `b` or reaches it in at most `k` references.
pub open spec fn reach_any(nv: Seq<Seq<char>>, dv: Seq<Seq<Seq<char>>>, ks: Seq<Seq<char>>, b: Seq<char>, k: nat) -> bool
    decreases k, ks.len() + 1,
{
    if ks.len() == 0 {
        false
    } else {
        reach_any(nv, dv, ks.drop_last(), b, k) || ks.last() == b || reaches(nv, dv, ks.last(), b, k)
    }
}

/// The rule named `x` lies on a cycle: it reaches itself (a cycle through
/// it is no longer than the number of rules).
pub open spec fn cyclic(nv: Seq<Seq<char>>, dv: Seq<Seq<Seq<char>>>, x: Seq<char>) -> bool {
    reaches(nv, dv, x, x, nv.len())
}

/// Number of rules on the longest chain of references from `x` that
/// avoids cyclic rules, looking at most `k` references deep.
pub open spec fn depth(nv: Seq<Seq<char>>, dv: Seq<Seq<Seq<char>>>, x: Seq<char>, k: nat) -> nat
    decreases k, 0nat,
{
    if k == 0 {
        1
    } else {
        pick(nv, dv, kids(nv, dv, x), (k - 1) as nat).0
    }
}

/// Over the rules `ks` (in order), skipping cyclic ones: one more than the
/// greatest depth (at least 1), and the first rule that has it.
pub open spec fn pick(nv: Seq<Seq<char>>, dv: Seq<Seq<Seq<char>>>, ks: Seq<Seq<char>>, k: nat) -> (nat, Option<Seq<char>>)
    decreases k, ks.len() + 1,
{
    if ks.len() == 0 {
        (1, None)
    } else {
        let prev = pick(nv, dv, ks.drop_last(), k);
        let c = ks.last();
        if cyclic(nv, dv, c) {
            prev
        } else if depth(nv, dv, c, k) + 1 > prev.0 {
            (depth(nv, dv, c, k) + 1, Some(c))
        } else {
            prev
        }
    }
}

/// A longest chain from `x`: `x`, then a longest chain from the first of
/// its deepest non-cyclic references.
pub open spec fn chain(nv: Seq<Seq<char>>, dv: Seq<Seq<Seq<char>>>, x: Seq<char>, k: nat) -> Seq<Seq<char>>
    decreases k,
{
    if k == 0 {
        seq![x]
    } else {
        match pick(nv, dv, kids(nv, dv, x), (k - 1) as nat).1 {
            Some(c) => seq![x] + chain(nv, dv, c, (k - 1) as nat),
            None => seq![x],
        }
    }
}

proof fn lemma_other_rules_names(ds: Seq<Seq<char>>, names: Seq<Seq<char>>, me: Seq<char>)
    ensures
        forall|m: int| 0 <= m < other_rules(ds, names, me).len() ==> names.contains(#[trigger] other_rules(ds, names, me)[m]),
    decreases ds.len(),
{
    if ds.len() > 0 {
        lemma_other_rules_names(ds.drop_last(), names, me);
        let prev = other_rules(ds.drop_last(), names, me);
        let cur = other_rules(ds, names, me);
        assert forall|m: int| 0 <= m < cur.len() implies names.contains(#[trigger] cur[m]) by {
            if names.contains(ds.last()) && ds.last() != me {
                assert(cur == prev.push(ds.last()));
                if m < prev.len() {
                    assert(cur[m] == prev[m]);
                }
            } else {
                assert(cur == prev);
            }
        }
    }
}

/// Exec form of a rule's references: names and the indices they stand for.
struct Kids {
    names: Vec<String>,
    owners: Vec<usize>,
}

impl Kids {
    spec fn ok(&self, nv: Seq<Seq<char>>, dv: Seq<Seq<Seq<char>>>, x: Seq<char>) -> bool {
        &&& strings_view(self.names@) == kids(nv, dv, x)
        &&& self.owners.len() == self.names.len()
        &&& forall|m: int| 0 <= m < self.owners.len() ==> (#[trigger] self.owners@[m]) < nv.len()
            && nv[self.owners@[m] as int] == self.names@[m]@ && self.owners@[m] == owner(nv, self.names@[m]@)
    }
}

/// The references of every rule.
fn all_kids(names: &Vec<String>, deps: &Vec<Vec<String>>) -> (r: Vec<Kids>)
    requires
        names.len() == deps.len(),
    ensures
        r.len() == names.len(),
        forall|j: int| 0 <= j < r.len() ==> (#[trigger] r@[j]).ok(
            strings_view(names@),
            crate::calc_engine::engine::lists_view(deps@),
            names@[j]@,
        ),
{
    let ghost nv = strings_view(names@);
    let ghost dv = crate::calc_engine::engine::lists_view(deps@);
    let mut out: Vec<Kids> = Vec::new();
    let mut j: usize = 0;
    while j < names.len()
        invariant
            0 <= j <= names.len(),
            names.len() == deps.len(),
            nv == strings_view(names@),
            dv == crate::calc_engine::engine::lists_view(deps@),
            out.len() == j,
            forall|a: int| 0 <= a < j ==> (#[trigger] out@[a]).ok(nv, dv, names@[a]@),
        decreases names.len() - j,
    {
        proof {
            lemma_owner(nv, nv[j as int]);
            assert(nv.contains(nv[j as int]));
        }
        let o = match owner_of(names, names[j].as_str()) {
            Some(o) => o,
            None => 0,
        };
        assert(dv[o as int] == strings_view(deps@[o as int]@));
        let kn = filter_other_rules(&deps[o], names, names[j].as_str());
        proof {
            lemma_other_rules_names(dv[o as int], nv, nv[j as int]);
        }
        let mut ko: Vec<usize> = Vec::new();
        let mut m: usize = 0;
        while m < kn.len()
            invariant
                0 <= m <= kn.len(),
                nv == strings_view(names@),
                ko.len() == m,
                forall|q: int| 0 <= q < strings_view(kn@).len() ==> nv.contains(#[trigger] strings_view(kn@)[q]),
                forall|q: int| 0 <= q < m ==> (#[trigger] ko@[q]) < nv.len() && nv[ko@[q] as int] == kn@[q]@
                    && ko@[q] == owner(nv, kn@[q]@),
            decreases kn.len() - m,
        {
            proof {
                assert(nv.contains(strings_view(kn@)[m as int]));
                lemma_owner(nv, kn@[m as int]@);
            }
            let w = match owner_of(names, kn[m].as_str()) {
                Some(w) => w,
                None => 0,
            };
            ko.push(w);
            m = m + 1;
        }
        out.push(Kids { names: kn, owners: ko });
        j = j + 1;
    }
    out
}

/// Index of the last definition of each rule's own name.
fn self_owners(names: &Vec<String>) -> (r: Vec<usize>)
    ensures
        r.len() == names.len(),
        forall|t: int| 0 <= t < r.len() ==> (#[trigger] r@[t]) == owner(strings_view(names@), names@[t]@)
            && r@[t] < names.len(),
{
    let ghost nv = strings_view(names@);
    let mut r: Vec<usize> = Vec::new();
    let mut t: usize = 0;
    while t < names.len()
        invariant
            0 <= t <= names.len(),
            nv == strings_view(names@),
            r.len() == t,
            forall|q: int| 0 <= q < t ==> (#[trigger] r@[q]) == owner(nv, names@[q]@) && r@[q] < names.len(),
        decreases names.len() - t,
    {
        proof {
            lemma_owner(nv, nv[t as int]);
            assert(nv.contains(nv[t as int]));
        }
        let o = match owner_of(names, names[t].as_str()) {
            Some(o) => o,
            None => 0,
        };
        r.push(o);
        t = t + 1;
    }
    r
}

/// Which rules lie on a cycle of references: for each rule, whether it
/// reaches itself.
pub fn find_cyclic_nodes(names: &Vec<String>, deps: &Vec<Vec<String>>) -> (r: Vec<bool>)
    requires
        names.len() == deps.len(),
    ensures
        r.len() == names.len(),
        forall|j: int| 0 <= j < r.len() ==> #[trigger] r@[j] == cyclic(
            strings_view(names@),
            crate::calc_engine::engine::lists_view(deps@),
            names@[j]@,
        ),
{
    let ghost nv = strings_view(names@);
    let ghost dv = crate::calc_engine::engine::lists_view(deps@);
    let n = names.len();
    let ks = all_kids(names, deps);
    let own = self_owners(names);
    let mut reach: Vec<Vec<bool>> = Vec::new();
    let mut j: usize = 0;
    while j < n
        invariant
            0 <= j <= n,
            reach.len() == j,
            forall|a: int| 0 <= a < j ==> (#[trigger] reach@[a]).len() == n,
            forall|a: int, t: int| 0 <= a < j && 0 <= t < n ==> !(#[trigger] reach@[a]@[t]),
        decreases n - j,
    {
        let mut row: Vec<bool> = Vec::new();
        let mut t: usize = 0;
        while t < n
            invariant
                0 <= t <= n,
                row.len() == t,
                forall|q: int| 0 <= q < t ==> !(#[trigger] row@[q]),
            decreases n - t,
        {
            row.push(false);
            t = t + 1;
        }
        reach.push(row);
        j = j + 1;
    }
    let mut k: usize = 0;
    while k < n
        invariant
            0 <= k <= n,
            n == names.len(),
            nv == strings_view(names@),
            dv == crate::calc_engine::engine::lists_view(deps@),
            ks.len() == n,
            own.len() == n,
            forall|a: int| 0 <= a < n ==> (#[trigger] ks@[a]).ok(nv, dv, names@[a]@),
            forall|t: int| 0 <= t < n ==> (#[trigger] own@[t]) == owner(nv, names@[t]@) && own@[t] < n,
            reach.len() == n,
            forall|a: int| 0 <= a < n ==> (#[trigger] reach@[a]).len() == n,
            forall|a: int, t: int| 0 <= a < n && 0 <= t < n ==> #[trigger] reach@[a]@[t] == reaches(nv, dv, nv[a], nv[t], k as nat),
        decreases n - k,
    {
        let mut next: Vec<Vec<bool>> = Vec::new();
        let mut a: usize = 0;
        while a < n
            invariant
                0 <= a <= n,
                0 <= k < n,
                n == names.len(),
                nv == strings_view(names@),
                ks.len() == n,
                own.len() == n,
                forall|b: int| 0 <= b < n ==> (#[trigger] ks@[b]).ok(nv, dv, names@[b]@),
                forall|t: int| 0 <= t < n ==> (#[trigger] own@[t]) == owner(nv, names@[t]@) && own@[t] < n,
                reach.len() == n,
                forall|b: int| 0 <= b < n ==> (#[trigger] reach@[b]).len() == n,
                forall|b: int, t: int| 0 <= b < n && 0 <= t < n ==> #[trigger] reach@[b]@[t] == reaches(nv, dv, nv[b], nv[t], k as nat),
                next.len() == a,
                forall|b: int| 0 <= b < a ==> (#[trigger] next@[b]).len() == n,
                forall|b: int, t: int| 0 <= b < a && 0 <= t < n ==> #[trigger] next@[b]@[t] == reaches(nv, dv, nv[b], nv[t], (k + 1) as nat),
            decreases n - a,
        {
            let kd = &ks[a];
            let ghost kv = kids(nv, dv, nv[a as int]);
            let mut row: Vec<bool> = Vec::new();
            let mut t: usize = 0;
            while t < n
                invariant
                    0 <= t <= n,
                    0 <= a < n,
                    0 <= k < n,
                    n == names.len(),
                    nv == strings_view(names@),
                    kd.ok(nv, dv, names@[a as int]@),
                    kv == kids(nv, dv, nv[a as int]),
                    own.len() == n,
                    forall|t2: int| 0 <= t2 < n ==> (#[trigger] own@[t2]) == owner(nv, names@[t2]@) && own@[t2] < n,
                    reach.len() == n,
                    forall|b: int| 0 <= b < n ==> (#[trigger] reach@[b]).len() == n,
                    forall|b: int, t2: int| 0 <= b < n && 0 <= t2 < n ==> #[trigger] reach@[b]@[t2] == reaches(nv, dv, nv[b], nv[t2], k as nat),
                    row.len() == t,
                    forall|q: int| 0 <= q < t ==> #[trigger] row@[q] == reaches(nv, dv, nv[a as int], nv[q], (k + 1) as nat),
                decreases n - t,
            {
                let mut acc = false;
                let mut m: usize = 0;
                assert(kv.take(0) =~= Seq::<Seq<char>>::empty());
                while m < kd.names.len()
                    invariant
                        0 <= m <= kd.names.len(),
                        0 <= t < n,
                        n == names.len(),
                        nv == strings_view(names@),
                        kd.ok(nv, dv, names@[a as int]@),
                        strings_view(kd.names@) == kv,
                        own.len() == n,
                        own@[t as int] == owner(nv, names@[t as int]@),
                        own@[t as int] < n,
                        reach.len() == n,
                        forall|b: int| 0 <= b < n ==> (#[trigger] reach@[b]).len() == n,
                        forall|b: int, t2: int| 0 <= b < n && 0 <= t2 < n ==> #[trigger] reach@[b]@[t2] == reaches(nv, dv, nv[b], nv[t2], k as nat),
                        acc == reach_any(nv, dv, kv.take(m as int), nv[t as int], k as nat),
                    decreases kd.names.len() - m,
                {
                    let w = kd.owners[m];
                    let ghost c = kv[m as int];
                    assert(kv.take(m + 1).drop_last() =~= kv.take(m as int));
                    assert(kv.take(m + 1).last() == c);
                    assert(nv[w as int] == c);
                    proof {
                        lemma_owner(nv, nv[t as int]);
                        assert(nv.contains(nv[t as int]));
                        lemma_owner(nv, c);
                        assert(nv.contains(c));
                    }
                    let same = w == own[t];
                    assert(same == (c == nv[t as int]));
                    acc = acc || same || reach[w][t];
                    m = m + 1;
                }
                assert(kv.take(kd.names.len() as int) =~= kv);
                row.push(acc);
                t = t + 1;
            }
            next.push(row);
            a = a + 1;
        }
        reach = next;
        k = k + 1;
    }
    let mut r: Vec<bool> = Vec::new();
    let mut j: usize = 0;
    while j < n
        invariant
            0 <= j <= n,
            n == names.len(),
            nv == strings_view(names@),
            reach.len() == n,
            forall|a: int| 0 <= a < n ==> (#[trigger] reach@[a]).len() == n,
            forall|a: int, t: int| 0 <= a < n && 0 <= t < n ==> #[trigger] reach@[a]@[t] == reaches(nv, dv, nv[a], nv[t], n as nat),
            r.len() == j,
            forall|q: int| 0 <= q < j ==> #[trigger] r@[q] == cyclic(nv, dv, names@[q]@),
        decreases n - j,
    {
        r.push(reach[j][j]);
        j = j + 1;
    }
    r
}

/// Exec form of `pick` over a rule's references, with the cyclic flags and
/// the depths at level `k` of all rules.
fn pick_exec(
    kd: &Kids,
    cyc: &Vec<bool>,
    d: &Vec<usize>,
    Ghost(nv): Ghost<Seq<Seq<char>>>,
    Ghost(dv): Ghost<Seq<Seq<Seq<char>>>>,
    Ghost(x): Ghost<Seq<char>>,
    Ghost(k): Ghost<nat>,
) -> (r: (usize, Option<usize>))
    requires
        kd.ok(nv, dv, x),
        cyc.len() == nv.len(),
        d.len() == nv.len(),
        k + 3 < usize::MAX,
        forall|j: int| 0 <= j < nv.len() ==> #[trigger] cyc@[j] == cyclic(nv, dv, nv[j]),
        forall|j: int| 0 <= j < nv.len() ==> #[trigger] d@[j] == depth(nv, dv, nv[j], k) && d@[j] <= k + 1,
    ensures
        r.0 == pick(nv, dv, kids(nv, dv, x), k).0,
        1 <= r.0 <= k + 2,
        match pick(nv, dv, kids(nv, dv, x), k).1 {
            None => r.1 is None,
            Some(c) => r.1 matches Some(m) && m < kd.names.len() && kd.names@[m as int]@ == c,
        },
{
    let ghost kv = kids(nv, dv, x);
    let mut best_d: usize = 1;
    let mut best: Option<usize> = None;
    let mut m: usize = 0;
    assert(kv.take(0) =~= Seq::<Seq<char>>::empty());
    while m < kd.names.len()
        invariant
            0 <= m <= kd.names.len(),
            kd.ok(nv, dv, x),
            kv == kids(nv, dv, x),
            cyc.len() == nv.len(),
            d.len() == nv.len(),
            k + 3 < usize::MAX,
            forall|j: int| 0 <= j < nv.len() ==> #[trigger] cyc@[j] == cyclic(nv, dv, nv[j]),
            forall|j: int| 0 <= j < nv.len() ==> #[trigger] d@[j] == depth(nv, dv, nv[j], k) && d@[j] <= k + 1,
            best_d == pick(nv, dv, kv.take(m as int), k).0,
            1 <= best_d <= k + 2,
            match pick(nv, dv, kv.take(m as int), k).1 {
                None => best is None,
                Some(c) => best matches Some(q) && q < m && kd.names@[q as int]@ == c,
            },
        decreases kd.names.len() - m,
    {
        let w = kd.owners[m];
        assert(kv.take(m + 1).drop_last() =~= kv.take(m as int));
        assert(kv.take(m + 1).last() == kv[m as int]);
        assert(nv[w as int] == kv[m as int]);
        if !cyc[w] && d[w] + 1 > best_d {
            best_d = d[w] + 1;
            best = Some(m);
        }
        m = m + 1;
    }
    assert(kv.take(kd.names.len() as int) =~= kv);
    (best_d, best)
}

/// For every rule, the length of its longest chain of references that
/// avoids cyclic rules, and such a chain (the first deepest reference is
/// followed at each step); chains are followed at most as many steps as
/// there are rules.
pub fn longest_chain(names: &Vec<String>, deps: &Vec<Vec<String>>, cyc: &Vec<bool>) -> (r: Vec<(usize, Vec<String>)>)
    requires
        names.len() == deps.len(),
        names.len() + 3 < usize::MAX,
        cyc.len() == names.len(),
        forall|j: int| 0 <= j < names.len() ==> #[trigger] cyc@[j] == cyclic(
            strings_view(names@),
            crate::calc_engine::engine::lists_view(deps@),
            names@[j]@,
        ),
    ensures
        r.len() == names.len(),
        forall|j: int| 0 <= j < r.len() ==> {
            let nv = strings_view(names@);
            let dv = crate::calc_engine::engine::lists_view(deps@);
            &&& (#[trigger] r@[j]).0 == depth(nv, dv, nv[j], names.len() as nat)
            &&& strings_view(r@[j].1@) == chain(nv, dv, nv[j], names.len() as nat)
        },
{
    let ghost nv = strings_view(names@);
    let ghost dv = crate::calc_engine::engine::lists_view(deps@);
    let n = names.len();
    let ks = all_kids(names, deps);
    let mut levels: Vec<Vec<usize>> = Vec::new();
    let mut first: Vec<usize> = Vec::new();
    let mut j: usize = 0;
    while j < n
        invariant
            0 <= j <= n,
            first.len() == j,
            forall|q: int| 0 <= q < j ==> #[trigger] first@[q] == 1,
        decreases n - j,
    {
        first.push(1);
        j = j + 1;
    }
    levels.push(first);
    let mut k: usize = 0;
    while k < n
        invariant
            0 <= k <= n,
            n == names.len(),
            n + 3 < usize::MAX,
            nv == strings_view(names@),
            dv == crate::calc_engine::engine::lists_view(deps@),
            ks.len() == n,
            forall|a: int| 0 <= a < n ==> (#[trigger] ks@[a]).ok(nv, dv, names@[a]@),
            cyc.len() == n,
            forall|a: int| 0 <= a < n ==> #[trigger] cyc@[a] == cyclic(nv, dv, nv[a]),
            levels.len() == k + 1,
            forall|l: int| 0 <= l <= k ==> (#[trigger] levels@[l]).len() == n,
            forall|l: int, a: int| 0 <= l <= k && 0 <= a < n ==> #[trigger] levels@[l]@[a] == depth(nv, dv, nv[a], l as nat)
                && levels@[l]@[a] <= l + 1,
        decreases n - k,
    {
        let mut row: Vec<usize> = Vec::new();
        let mut a: usize = 0;
        while a < n
            invariant
                0 <= a <= n,
                0 <= k < n,
                n == names.len(),
                n + 3 < usize::MAX,
                nv == strings_view(names@),
                ks.len() == n,
                forall|b: int| 0 <= b < n ==> (#[trigger] ks@[b]).ok(nv, dv, names@[b]@),
                cyc.len() == n,
                forall|b: int| 0 <= b < n ==> #[trigger] cyc@[b] == cyclic(nv, dv, nv[b]),
                levels.len() == k + 1,
                forall|l: int| 0 <= l <= k ==> (#[trigger] levels@[l]).len() == n,
                forall|l: int, b: int| 0 <= l <= k && 0 <= b < n ==> #[trigger] levels@[l]@[b] == depth(nv, dv, nv[b], l as nat)
                    && levels@[l]@[b] <= l + 1,
                row.len() == a,
                forall|b: int| 0 <= b < a ==> #[trigger] row@[b] == depth(nv, dv, nv[b], (k + 1) as nat)
                    && row@[b] <= k + 2,
            decreases n - a,
        {
            let prev = &levels[k];
            assert forall|q: int| 0 <= q < nv.len() implies #[trigger] prev@[q] == depth(nv, dv, nv[q], k as nat)
                && prev@[q] <= k + 1 by {
                assert(levels@[k as int]@[q] == depth(nv, dv, nv[q], k as nat));
            }
            let (bd, _) = pick_exec(&ks[a], cyc, prev, Ghost(nv), Ghost(dv), Ghost(nv[a as int]), Ghost(k as nat));
            row.push(bd);
            a = a + 1;
        }
        levels.push(row);
        k = k + 1;
    }
    let mut out: Vec<(usize, Vec<String>)> = Vec::new();
    let mut i: usize = 0;
    while i < n
        invariant
            0 <= i <= n,
            n == names.len(),
            n + 3 < usize::MAX,
            nv == strings_view(names@),
            dv == crate::calc_engine::engine::lists_view(deps@),
            ks.len() == n,
            forall|a: int| 0 <= a < n ==> (#[trigger] ks@[a]).ok(nv, dv, names@[a]@),
            cyc.len() == n,
            forall|a: int| 0 <= a < n ==> #[trigger] cyc@[a] == cyclic(nv, dv, nv[a]),
            levels.len() == n + 1,
            forall|l: int| 0 <= l <= n ==> (#[trigger] levels@[l]).len() == n,
            forall|l: int, a: int| 0 <= l <= n && 0 <= a < n ==> #[trigger] levels@[l]@[a] == depth(nv, dv, nv[a], l as nat)
                && levels@[l]@[a] <= l + 1,
            out.len() == i,
            forall|q: int| 0 <= q < i ==> (#[trigger] out@[q]).0 == depth(nv, dv, nv[q], n as nat)
                && strings_view(out@[q].1@) == chain(nv, dv, nv[q], n as nat),
        decreases n - i,
    {
        let mut path: Vec<String> = Vec::new();
        let mut cur: usize = i;
        let mut kk: usize = n;
        loop
            invariant_except_break
                chain(nv, dv, nv[i as int], n as nat) == strings_view(path@) + chain(nv, dv, nv[cur as int], kk as nat),
            invariant
                0 <= cur < n,
                0 <= kk <= n,
                n == names.len(),
                n + 3 < usize::MAX,
                nv == strings_view(names@),
                ks.len() == n,
                forall|a: int| 0 <= a < n ==> (#[trigger] ks@[a]).ok(nv, dv, names@[a]@),
                cyc.len() == n,
                forall|a: int| 0 <= a < n ==> #[trigger] cyc@[a] == cyclic(nv, dv, nv[a]),
                levels.len() == n + 1,
                forall|l: int| 0 <= l <= n ==> (#[trigger] levels@[l]).len() == n,
                forall|l: int, a: int| 0 <= l <= n && 0 <= a < n ==> #[trigger] levels@[l]@[a] == depth(nv, dv, nv[a], l as nat)
                    && levels@[l]@[a] <= l + 1,
            ensures
                chain(nv, dv, nv[i as int], n as nat) == strings_view(path@),
            decreases kk,
        {
            let ghost before = strings_view(path@);
            path.push(names[cur].clone());
            assert(strings_view(path@) =~= before.push(nv[cur as int]));
            if kk == 0 {
                assert(chain(nv, dv, nv[cur as int], 0) == seq![nv[cur as int]]);
                assert(before + seq![nv[cur as int]] =~= before.push(nv[cur as int]));
                break;
            }
            let prev = &levels[kk - 1];
            assert forall|q: int| 0 <= q < nv.len() implies #[trigger] prev@[q] == depth(nv, dv, nv[q], (kk - 1) as nat)
                && prev@[q] <= kk by {
                assert(levels@[kk - 1]@[q] == depth(nv, dv, nv[q], (kk - 1) as nat));
            }
            let (_, best) = pick_exec(&ks[cur], cyc, prev, Ghost(nv), Ghost(dv), Ghost(nv[cur as int]), Ghost((kk - 1) as nat));
            match best {
                None => {
                    assert(chain(nv, dv, nv[cur as int], kk as nat) == seq![nv[cur as int]]);
                    assert(before + seq![nv[cur as int]] =~= before.push(nv[cur as int]));
                    break;
                },
                Some(m) => {
                    let w = ks[cur].owners[m];
                    let ghost c = ks@[cur as int].names@[m as int]@;
                    assert(nv[w as int] == c);
                    assert(chain(nv, dv, nv[cur as int], kk as nat) == seq![nv[cur as int]] + chain(nv, dv, c, (kk - 1) as nat));
                    assert(before + (seq![nv[cur as int]] + chain(nv, dv, c, (kk - 1) as nat)) =~= before.push(nv[cur as int]) + chain(nv, dv, c, (kk - 1) as nat));
                    cur = w;
                    kk = kk - 1;
                },
            }
        }
        out.push((levels[n][i], path));
        i = i + 1;
    }
    out
}

// ------------------------------------------------------------------
//  Reports
// ------------------------------------------------------------------

/// A rule as written in the rules file.
#[derive(Debug, Clone)]
pub struct RuleSource {
    pub kks_calc: String,
    pub data_type: String,
    pub expression: String,
}

/// The rules among the first `j` that read `x`, in order (`x` being a
/// rule's name other than their own).
pub open spec fn dependents_upto(nv: Seq<Seq<char>>, dv: Seq<Seq<Seq<char>>>, x: Seq<char>, j: int) -> Seq<Seq<char>>
    decreases j,
{
    if j <= 0 {
        Seq::empty()
    } else if dv[j - 1].contains(x) && nv.contains(x) && x != nv[j - 1] {
        dependents_upto(nv, dv, x, j - 1).push(nv[j - 1])
    } else {
        dependents_upto(nv, dv, x, j - 1)
    }
}

/// Marker that ends the chain shown for a rule on a cycle.
pub open spec fn cycle_marker() -> Seq<char> {
    "…[循环]"@
}

/// What the report of rule `j` says, given each rule's variables `dv`.
pub open spec fn report_ok(rep: RuleReport, src: RuleSource, nv: Seq<Seq<char>>, dv: Seq<Seq<Seq<char>>>, j: int) -> bool {
    let x = nv[j];
    let n = nv.len();
    &&& rep.name@ == x
    &&& rep.expression@ == src.expression@
    &&& rep.data_type@ == src.data_type@
    &&& strings_view(rep.direct_deps@) == dv[j]
    &&& strings_view(rep.rule_deps@) == other_rules(dv[j], nv, x)
    &&& strings_view(rep.base_deps@) == not_rules(dv[j], nv)
    &&& rep.in_cycle == cyclic(nv, dv, x)
    &&& rep.is_self_ref == dv[j].contains(x)
    &&& if rep.in_cycle {
        rep.max_chain_depth == 0 && strings_view(rep.chain_example@) == seq![x, cycle_marker()]
    } else {
        rep.max_chain_depth == depth(nv, dv, x, n) && strings_view(rep.chain_example@) == chain(nv, dv, x, n)
    }
    &&& strings_view(rep.dependents@) == dependents_upto(nv, dv, x, n as int)
}

/// Names of the rules.
pub open spec fn source_names(rules: Seq<RuleSource>) -> Seq<Seq<char>> {
    rules.map_values(|r: RuleSource| r.kks_calc@)
}

fn clone_strings(v: &Vec<String>) -> (r: Vec<String>)
    ensures
        strings_view(r@) == strings_view(v@),
{
    let mut r: Vec<String> = Vec::new();
    let mut i: usize = 0;
    while i < v.len()
        invariant
            0 <= i <= v.len(),
            strings_view(r@) == strings_view(v@).take(i as int),
        decreases v.len() - i,
    {
        let ghost before = strings_view(r@);
        r.push(v[i].clone());
        assert(strings_view(r@) =~= before.push(v@[i as int]@));
        assert(strings_view(v@).take(i + 1) =~= strings_view(v@).take(i as int).push(v@[i as int]@));
        i = i + 1;
    }
    assert(strings_view(v@).take(v.len() as int) =~= strings_view(v@));
    r
}

/// The rules that read `x`, in order.
fn dependents_exec(names: &Vec<String>, deps: &Vec<Vec<String>>, x: &str) -> (r: Vec<String>)
    requires
        names.len() == deps.len(),
    ensures
        strings_view(r@) == dependents_upto(
            strings_view(names@),
            crate::calc_engine::engine::lists_view(deps@),
            x@,
            names.len() as int,
        ),
{
    let ghost nv = strings_view(names@);
    let ghost dv = crate::calc_engine::engine::lists_view(deps@);
    let is_name = crate::text::contains_str(names, x);
    let mut r: Vec<String> = Vec::new();
    let mut j: usize = 0;
    while j < names.len()
        invariant
            0 <= j <= names.len(),
            names.len() == deps.len(),
            nv == strings_view(names@),
            dv == crate::calc_engine::engine::lists_view(deps@),
            is_name == nv.contains(x@),
            strings_view(r@) == dependents_upto(nv, dv, x@, j as int),
        decreases names.len() - j,
    {
        assert(dv[j as int] == strings_view(deps@[j as int]@));
        if crate::text::contains_str(&deps[j], x) && is_name && !str_eq(x, names[j].as_str()) {
            let ghost before = strings_view(r@);
            r.push(names[j].clone());
            assert(strings_view(r@) =~= before.push(nv[j as int]));
        }
        j = j + 1;
    }
    r
}

/// Reports for rules whose variables are `deps`: their direct, rule and
/// base dependencies, whether they reference themselves or lie on a cycle,
/// their longest chain and who reads them.
pub fn analyze_with_deps(rules: &Vec<RuleSource>, deps: &Vec<Vec<String>>) -> (r: Vec<RuleReport>)
    requires
        rules.len() == deps.len(),
        rules.len() + 3 < usize::MAX,
    ensures
        r.len() == rules.len(),
        forall|j: int| 0 <= j < r.len() ==> report_ok(
            #[trigger] r@[j],
            rules@[j],
            source_names(rules@),
            crate::calc_engine::engine::lists_view(deps@),
            j,
        ),
{
    let n = rules.len();
    let mut names: Vec<String> = Vec::new();
    let mut i: usize = 0;
    while i < n
        invariant
            0 <= i <= n,
            n == rules.len(),
            names.len() == i,
            forall|q: int| 0 <= q < i ==> (#[trigger] names@[q])@ == rules@[q].kks_calc@,
        decreases n - i,
    {
        names.push(rules[i].kks_calc.clone());
        i = i + 1;
    }
    let ghost nv = strings_view(names@);
    let ghost dv = crate::calc_engine::engine::lists_view(deps@);
    assert(nv =~= source_names(rules@));
    let cyc = find_cyclic_nodes(&names, deps);
    let chains = longest_chain(&names, deps, &cyc);
    let mut out: Vec<RuleReport> = Vec::new();
    let mut j: usize = 0;
    while j < n
        invariant
            0 <= j <= n,
            n == rules.len(),
            n == deps.len(),
            n == names.len(),
            nv == strings_view(names@),
            nv == source_names(rules@),
            dv == crate::calc_engine::engine::lists_view(deps@),
            cyc.len() == n,
            forall|a: int| 0 <= a < n ==> #[trigger] cyc@[a] == cyclic(nv, dv, names@[a]@),
            chains.len() == n,
            forall|a: int| 0 <= a < n ==> (#[trigger] chains@[a]).0 == depth(nv, dv, nv[a], n as nat)
                && strings_view(chains@[a].1@) == chain(nv, dv, nv[a], n as nat),
            out.len() == j,
            forall|a: int| 0 <= a < j ==> report_ok(#[trigger] out@[a], rules@[a], nv, dv, a),
        decreases n - j,
    {
        let name = names[j].as_str();
        assert(dv[j as int] == strings_view(deps@[j as int]@));
        let direct = clone_strings(&deps[j]);
        let rule_deps = filter_other_rules(&deps[j], &names, name);
        let base_deps = filter_not_rules(&deps[j], &names);
        let is_self_ref = crate::text::contains_str(&deps[j], name);
        let in_cycle = cyc[j];
        let (max_chain_depth, chain_example) = if in_cycle {
            let mut c: Vec<String> = Vec::new();
            c.push(names[j].clone());
            let mut m: Vec<char> = Vec::new();
            push_str(&mut m, "…[循环]");
            c.push(string_from_chars(m.as_slice()));
            assert(strings_view(c@) =~= seq![nv[j as int], cycle_marker()]);
            (0usize, c)
        } else {
            (chains[j].0, clone_strings(&chains[j].1))
        };
        let dependents = dependents_exec(&names, deps, name);
        let rep = RuleReport {
            name: names[j].clone(),
            expression: rules[j].expression.clone(),
            data_type: rules[j].data_type.clone(),
            direct_deps: direct,
            rule_deps,
            base_deps,
            max_chain_depth,
            chain_example,
            dependents,
            in_cycle,
            is_self_ref,
        };
        out.push(rep);
        j = j + 1;
    }
    out
}

/// Reports for the rules of a rules file (see [`analyze_with_deps`]); the
/// variables of each formula are its identifiers that are not reserved
/// words.
pub fn analyze_rules(rules: &Vec<RuleSource>) -> (r: Vec<RuleReport>)
    requires
        rules.len() + 3 < usize::MAX,
    ensures
        r.len() == rules.len(),
        forall|j: int| 0 <= j < r.len() ==> strings_view(r@[j].direct_deps@).to_set() == unreserved(
            identifier_matches(#[trigger] rules@[j].expression@),
        ).to_set() && sorted_strict(strings_view(r@[j].direct_deps@)),
        exists|dv: Seq<Seq<Seq<char>>>| dv.len() == rules.len() && forall|j: int| 0 <= j < r.len() ==> report_ok(
            #[trigger] r@[j],
            rules@[j],
            source_names(rules@),
            dv,
            j,
        ),
{
    let mut deps: Vec<Vec<String>> = Vec::new();
    let mut i: usize = 0;
    while i < rules.len()
        invariant
            0 <= i <= rules.len(),
            deps.len() == i,
            forall|q: int| 0 <= q < i ==> strings_view(deps@[q]@).to_set() == unreserved(
                identifier_matches(#[trigger] rules@[q].expression@),
            ).to_set() && sorted_strict(strings_view(deps@[q]@)),
        decreases rules.len() - i,
    {
        deps.push(extract_variables(rules[i].expression.as_str()));
        i = i + 1;
    }
    let r = analyze_with_deps(rules, &deps);
    proof {
        let dv = crate::calc_engine::engine::lists_view(deps@);
        assert forall|j: int| 0 <= j < r.len() implies strings_view(r@[j].direct_deps@).to_set() == unreserved(
            identifier_matches(#[trigger] rules@[j].expression@),
        ).to_set() && sorted_strict(strings_view(r@[j].direct_deps@)) by {
            assert(report_ok(r@[j], rules@[j], source_names(rules@), dv, j));
            assert(dv[j] == strings_view(deps@[j]@));
        }
        assert(dv.len() == rules.len());
        assert(forall|j: int| 0 <= j < r.len() ==> report_ok(#[trigger] r@[j], rules@[j], source_names(rules@), dv, j));
    }
    r
}

// ------------------------------------------------------------------
//  Laws
// ------------------------------------------------------------------

proof fn lemma_pick_depth(nv: Seq<Seq<char>>, dv: Seq<Seq<Seq<char>>>, ks: Seq<Seq<char>>, k: nat)
    ensures
        match pick(nv, dv, ks, k).1 {
            Some(c) => pick(nv, dv, ks, k).0 == depth(nv, dv, c, k) + 1,
            None => pick(nv, dv, ks, k).0 == 1,
        },
    decreases ks.len(),
{
    if ks.len() > 0 {
        lemma_pick_depth(nv, dv, ks.drop_last(), k);
    }
}

/// A rule's chain example has exactly as many rules as its chain depth:
/// the example is a chain of the reported length.
pub proof fn law_chain_length_is_depth(nv: Seq<Seq<char>>, dv: Seq<Seq<Seq<char>>>, x: Seq<char>, k: nat)
    ensures
        chain(nv, dv, x, k).len() == depth(nv, dv, x, k),
        chain(nv, dv, x, k)[0] == x,
    decreases k,
{
    if k > 0 {
        let ks = kids(nv, dv, x);
        lemma_pick_depth(nv, dv, ks, (k - 1) as nat);
        match pick(nv, dv, ks, (k - 1) as nat).1 {
            Some(c) => {
                law_chain_length_is_depth(nv, dv, c, (k - 1) as nat);
            },
            None => {},
        }
    }
}

proof fn lemma_other_rules_contains(ds: Seq<Seq<char>>, names: Seq<Seq<char>>, me: Seq<char>, d: Seq<char>)
    ensures
        other_rules(ds, names, me).contains(d) <==> (ds.contains(d) && names.contains(d) && d != me),
    decreases ds.len(),
{
    if ds.len() > 0 {
        lemma_other_rules_contains(ds.drop_last(), names, me, d);
        assert(ds =~= ds.drop_last().push(ds.last()));
        vstd::seq_lib::lemma_seq_contains_after_push(ds.drop_last(), ds.last(), d);
        vstd::seq_lib::lemma_seq_contains_after_push(other_rules(ds.drop_last(), names, me), ds.last(), d);
    }
}

proof fn lemma_not_rules_contains(ds: Seq<Seq<char>>, names: Seq<Seq<char>>, d: Seq<char>)
    ensures
        not_rules(ds, names).contains(d) <==> (ds.contains(d) && !names.contains(d)),
    decreases ds.len(),
{
    if ds.len() > 0 {
        lemma_not_rules_contains(ds.drop_last(), names, d);
        assert(ds =~= ds.drop_last().push(ds.last()));
        vstd::seq_lib::lemma_seq_contains_after_push(ds.drop_last(), ds.last(), d);
        vstd::seq_lib::lemma_seq_contains_after_push(not_rules(ds.drop_last(), names), ds.last(), d);
    }
}

/// Every variable of a rule is exactly one of: another rule's output (a
/// rule dependency), no rule's output (a base variable), or the rule's own
/// output (a self-reference).
pub proof fn law_dependencies_partition(ds: Seq<Seq<char>>, names: Seq<Seq<char>>, me: Seq<char>, d: Seq<char>)
    requires
        names.contains(me),
        ds.contains(d),
    ensures
        other_rules(ds, names, me).contains(d) <==> (names.contains(d) && d != me),
        not_rules(ds, names).contains(d) <==> !names.contains(d),
        !other_rules(ds, names, me).contains(d) && !not_rules(ds, names).contains(d) <==> d == me,
{
    lemma_other_rules_contains(ds, names, me, d);
    lemma_not_rules_contains(ds, names, d);
}

} // verus!
