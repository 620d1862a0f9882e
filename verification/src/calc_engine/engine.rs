//! Rule planning for the formula engine: compiling a rule's formula,
//! ordering rules so that each one runs after the rules whose outputs it
//! reads, and the inputs the rules need from outside.

use vstd::prelude::*;

use super::parser::{parse, parse_tokens, vars_in, Expr, ExprView};
use super::tokenizer::{lex, lex_error_msg, tokenize, tokens_view};
use super::parser::parse_error_msg;
use crate::text::{contains_str, push_str, sorted_strict, str_eq, sorted_unique, string_from_chars, strings_view};

verus! {

// ------------------------------------------------------------------
//  Compiling one rule
// ------------------------------------------------------------------

/// Message for a formula that reads its own output.
pub open spec fn self_reference_text(kks_calc: Seq<char>, expression: Seq<char>) -> Seq<char> {
    "公式自引用: "@ + kks_calc + " 的表达式 \""@ + expression + "\" 中引用了自身"@
}

/// Message for a token list too long to be addressed.
pub open spec fn too_long_text() -> Seq<char> {
    "表达式过长"@
}

/// Compiles the formula of the rule whose output is `kks_calc`: lexes and
/// parses `expression` and lists the variables it reads. A formula that
/// reads `kks_calc` itself is refused.
pub fn compile_formula(kks_calc: &str, expression: &str) -> (r: Result<(Expr, Vec<String>), String>)
    ensures
        match lex(expression@) {
            Err(e) => r matches Err(m) && m@ == lex_error_msg(e),
            Ok(ts) => if ts.len() + 4 >= usize::MAX {
                r matches Err(m) && m@ == too_long_text()
            } else {
                match parse_tokens(ts) {
                    Err(pe) => r matches Err(m) && m@ == parse_error_msg(pe),
                    Ok(ev) => if vars_in(ev).contains(kks_calc@) {
                        r matches Err(m) && m@ == self_reference_text(kks_calc@, expression@)
                    } else {
                        r matches Ok((x, vs)) && x.view() == ev && sorted_strict(strings_view(vs@))
                            && strings_view(vs@).to_set() == vars_in(ev).to_set()
                    },
                }
            },
        },
{
    let tokens = match tokenize(expression) {
        Ok(t) => t,
        Err(m) => return Err(m),
    };
    assert(tokens_view(tokens@).len() == tokens.len());
    if tokens.len() >= usize::MAX - 4 {
        let mut out: Vec<char> = Vec::new();
        push_str(&mut out, "表达式过长");
        return Err(string_from_chars(out.as_slice()));
    }
    let ast = match parse(tokens) {
        Ok(a) => a,
        Err(m) => return Err(m),
    };
    let variables = super::parser::extract_variables(&ast);
    if contains_str(&variables, kks_calc) {
        proof {
            let sv = strings_view(variables@);
            assert(sv.to_set().contains(kks_calc@));
            assert(vars_in(ast.view()).to_set().contains(kks_calc@));
        }
        let mut out: Vec<char> = Vec::new();
        push_str(&mut out, "公式自引用: ");
        push_str(&mut out, kks_calc);
        push_str(&mut out, " 的表达式 \"");
        push_str(&mut out, expression);
        push_str(&mut out, "\" 中引用了自身");
        return Err(string_from_chars(out.as_slice()));
    }
    proof {
        let sv = strings_view(variables@);
        if vars_in(ast.view()).contains(kks_calc@) {
            assert(vars_in(ast.view()).to_set().contains(kks_calc@));
            assert(sv.to_set().contains(kks_calc@));
        }
    }
    Ok((ast, variables))
}

// ------------------------------------------------------------------
//  Dependencies between rules
// ------------------------------------------------------------------

/// The variable lists of the rules, as text.
pub open spec fn lists_view(v: Seq<Vec<String>>) -> Seq<Seq<Seq<char>>> {
    v.map_values(|x: Vec<String>| strings_view(x@))
}

/// No rule after `j` produces the same output name: when several rules
/// share a name, a reader of that name is tied to the last of them.
pub open spec fn last_producer(outputs: Seq<Seq<char>>, j: int) -> bool {
    forall|j2: int| j < j2 < outputs.len() ==> outputs[j2] != outputs[j]
}

/// Rule `i` reads the output of rule `j`.
pub open spec fn depends(outputs: Seq<Seq<char>>, vars: Seq<Seq<Seq<char>>>, i: int, j: int) -> bool {
    &&& 0 <= j < outputs.len()
    &&& vars[i].contains(outputs[j])
    &&& last_producer(outputs, j)
}

/// Whether no rule after `j` has the same output name.
fn is_last_producer(outputs: &Vec<String>, j: usize) -> (r: bool)
    requires
        j < outputs.len(),
    ensures
        r == last_producer(strings_view(outputs@), j as int),
{
    let ghost outs = strings_view(outputs@);
    let mut k: usize = j + 1;
    while k < outputs.len()
        invariant
            j < k <= outputs.len(),
            outs == strings_view(outputs@),
            outs.len() == outputs.len(),
            forall|j2: int| j < j2 < k ==> outs[j2] != outs[j as int],
        decreases outputs.len() - k,
    {
        assert(outs[k as int] == outputs@[k as int]@);
        assert(outs[j as int] == outputs@[j as int]@);
        if str_eq(outputs[k].as_str(), outputs[j].as_str()) {
            return false;
        }
        k = k + 1;
    }
    true
}

/// `deps[i]` lists exactly the rules that rule `i` reads.
pub open spec fn deps_match(outputs: Seq<Seq<char>>, vars: Seq<Seq<Seq<char>>>, deps: Seq<Vec<usize>>) -> bool {
    &&& deps.len() == outputs.len()
    &&& forall|i: int, k: int|
        0 <= i < deps.len() && 0 <= k < deps[i].len() ==> #[trigger] deps[i]@[k] < outputs.len()
    &&& forall|i: int, j: int|
        0 <= i < deps.len() && 0 <= j < outputs.len() ==> (#[trigger] deps[i]@.contains(j as usize)
            <==> depends(outputs, vars, i, j))
}

/// For every rule, the indices of the rules whose outputs it reads.
fn dependency_lists(outputs: &Vec<String>, variables: &Vec<Vec<String>>) -> (deps: Vec<Vec<usize>>)
    requires
        outputs.len() == variables.len(),
    ensures
        deps_match(strings_view(outputs@), lists_view(variables@), deps@),
{
    let n = outputs.len();
    let ghost outs = strings_view(outputs@);
    let ghost vars = lists_view(variables@);
    let mut deps: Vec<Vec<usize>> = Vec::new();
    let mut i: usize = 0;
    while i < n
        invariant
            n == outputs.len(),
            n == variables.len(),
            outs == strings_view(outputs@),
            vars == lists_view(variables@),
            0 <= i <= n,
            deps.len() == i,
            forall|a: int, k: int|
                0 <= a < deps.len() && 0 <= k < deps[a].len() ==> #[trigger] deps[a]@[k] < n,
            forall|a: int, j: int|
                0 <= a < deps.len() && 0 <= j < n ==> (#[trigger] deps[a]@.contains(j as usize)
                    <==> depends(outs, vars, a, j)),
        decreases n - i,
    {
        let mut row: Vec<usize> = Vec::new();
        let mut j: usize = 0;
        while j < n
            invariant
                n == outputs.len(),
                n == variables.len(),
                outs == strings_view(outputs@),
                vars == lists_view(variables@),
                0 <= i < n,
                0 <= j <= n,
                forall|k: int| 0 <= k < row.len() ==> #[trigger] row@[k] < j,
                forall|k: int| 0 <= k < row.len() ==> #[trigger] row@[k] < n,
                forall|b: int| 0 <= b < n ==> (#[trigger] row@.contains(b as usize) <==> (b < j
                    && depends(outs, vars, i as int, b))),
            decreases n - j,
        {
            let hit = contains_str(&variables[i], outputs[j].as_str()) && is_last_producer(outputs, j);
            assert(vars[i as int] == strings_view(variables@[i as int]@));
            assert(outs[j as int] == outputs@[j as int]@);
            assert(hit == depends(outs, vars, i as int, j as int));
            let ghost before = row@;
            if hit {
                row.push(j);
            }
            proof {
                assert forall|b: int| 0 <= b < n implies (#[trigger] row@.contains(b as usize) <==> (b < j + 1
                    && depends(outs, vars, i as int, b))) by {
                    lemma_push_contains(before, j, b as usize);
                    if !hit {
                        assert(row@ == before);
                        if b == j {
                            if before.contains(j) {
                                let k = choose|k: int| 0 <= k < before.len() && before[k] == j;
                                assert(before[k] < j);
                            }
                        }
                    } else {
                        assert(row@ == before.push(j));
                    }
                }
                assert forall|k: int| 0 <= k < row.len() implies #[trigger] row@[k] < j + 1 by {
                    if k < before.len() {
                        assert(row@[k] == before[k]);
                    }
                }
            }
            j = j + 1;
        }
        deps.push(row);
        proof {
            assert forall|a: int, j2: int|
                0 <= a < deps.len() && 0 <= j2 < n implies (#[trigger] deps[a]@.contains(j2 as usize)
                    <==> depends(outs, vars, a, j2)) by {
                if a < i {
                } else {
                    assert(deps[a]@ == row@);
                }
            }
        }
        i = i + 1;
    }
    deps
}

/// Whether `d` holds `x`.
fn holds(d: &Vec<usize>, x: usize) -> (r: bool)
    ensures
        r == d@.contains(x),
{
    let mut k: usize = 0;
    while k < d.len()
        invariant
            0 <= k <= d.len(),
            forall|m: int| 0 <= m < k ==> d@[m] != x,
        decreases d.len() - k,
    {
        if d[k] == x {
            return true;
        }
        k = k + 1;
    }
    false
}

/// Whether every index in `d` is marked.
fn all_marked(d: &Vec<usize>, marks: &Vec<bool>) -> (r: bool)
    requires
        forall|k: int| 0 <= k < d.len() ==> #[trigger] d@[k] < marks.len(),
    ensures
        r == forall|k: int| 0 <= k < d.len() ==> marks@[#[trigger] d@[k] as int],
{
    let mut k: usize = 0;
    while k < d.len()
        invariant
            0 <= k <= d.len(),
            forall|m: int| 0 <= m < d.len() ==> #[trigger] d@[m] < marks.len(),
            forall|m: int| 0 <= m < k ==> marks@[#[trigger] d@[m] as int],
        decreases d.len() - k,
    {
        if !marks[d[k]] {
            return false;
        }
        k = k + 1;
    }
    true
}

/// Membership after a push.
proof fn lemma_push_contains(s: Seq<usize>, x: usize, y: usize)
    ensures
        s.push(x).contains(y) <==> (s.contains(y) || y == x),
{
    if s.push(x).contains(y) && y != x {
        let k = choose|k: int| 0 <= k < s.len() + 1 && s.push(x)[k] == y;
        assert(k < s.len());
        assert(s[k] == y);
    }
    if s.contains(y) {
        let k = choose|k: int| 0 <= k < s.len() && s[k] == y;
        assert(s.push(x)[k] == y);
    }
    if y == x {
        assert(s.push(x)[s.len() as int] == y);
    }
}

/// A repetition-free sequence of indices below `n` has at most `n` entries.
proof fn lemma_distinct_below(s: Seq<usize>, n: int)
    requires
        0 <= n <= usize::MAX,
        s.no_duplicates(),
        forall|k: int| 0 <= k < s.len() ==> s[k] < n,
    ensures
        s.len() <= n,
    decreases s.len(),
{
    if s.len() > 0 {
        let last = s.last();
        let t = s.drop_last();
        assert forall|a: int, b: int| 0 <= a < b < t.len() implies t[a] != t[b] by {
            assert(t[a] == s[a] && t[b] == s[b]);
        }
        // Renumber: the entry equal to n - 1, if any, takes the place of `last`.
        let top = (n - 1) as usize;
        let u = t.map_values(|x: usize| if x == top { last } else { x });
        assert forall|m: int| 0 <= m < u.len() implies u[m] < n - 1 by {
            assert(t[m] == s[m]);
            assert(s[m] != last);
            if t[m] == top {
                assert(last != top) by {
                    assert(s[s.len() - 1] == last);
                }
            }
        }
        assert forall|a: int, b: int| 0 <= a < b < u.len() implies u[a] != u[b] by {
            assert(t[a] == s[a] && t[b] == s[b]);
            assert(s[a] != last && s[b] != last);
        }
        lemma_distinct_below(u, n - 1);
    }
}

/// Position, below `upto`, of the last rule of `order` that the rule at
/// position `k` reads; -1 if there is none.
pub open spec fn last_read_below(
    outs: Seq<Seq<char>>,
    vars: Seq<Seq<Seq<char>>>,
    order: Seq<usize>,
    k: int,
    upto: int,
) -> int
    decreases upto,
{
    if upto <= 0 {
        -1
    } else if depends(outs, vars, order[k] as int, order[upto - 1] as int) {
        upto - 1
    } else {
        last_read_below(outs, vars, order, k, upto - 1)
    }
}

/// When the rule at position `k` became ready: the position of the last
/// rule before it that it reads (-1 when it reads none).
pub open spec fn ready_at(outs: Seq<Seq<char>>, vars: Seq<Seq<Seq<char>>>, order: Seq<usize>, k: int) -> int {
    last_read_below(outs, vars, order, k, k)
}

/// The rule at position `a` comes before the one at `b` in breadth-first
/// order: it became ready earlier, or at the same time with a lower index.
pub open spec fn ready_before(outs: Seq<Seq<char>>, vars: Seq<Seq<Seq<char>>>, order: Seq<usize>, a: int, b: int) -> bool {
    ready_at(outs, vars, order, a) < ready_at(outs, vars, order, b) || (ready_at(outs, vars, order, a)
        == ready_at(outs, vars, order, b) && order[a] < order[b])
}

proof fn lemma_last_read_push(outs: Seq<Seq<char>>, vars: Seq<Seq<Seq<char>>>, s: Seq<usize>, x: usize, k: int, upto: int)
    requires
        0 <= k < s.len(),
        upto <= k,
    ensures
        last_read_below(outs, vars, s.push(x), k, upto) == last_read_below(outs, vars, s, k, upto),
    decreases upto,
{
    if upto > 0 {
        assert(s.push(x)[k] == s[k]);
        assert(s.push(x)[upto - 1] == s[upto - 1]);
        lemma_last_read_push(outs, vars, s, x, k, upto - 1);
    }
}

proof fn lemma_last_read_value(outs: Seq<Seq<char>>, vars: Seq<Seq<Seq<char>>>, s: Seq<usize>, k: int, upto: int, m: int)
    requires
        -1 <= m < upto,
        m >= 0 ==> depends(outs, vars, s[k] as int, s[m] as int),
        forall|m2: int| m < m2 < upto ==> !depends(outs, vars, s[k] as int, #[trigger] s[m2] as int),
    ensures
        last_read_below(outs, vars, s, k, upto) == m,
    decreases upto,
{
    if upto > 0 && upto - 1 != m {
        lemma_last_read_value(outs, vars, s, k, upto - 1, m);
    }
}

/// Step `k` of `p`: the rule at position `k` reads the rule after it.
pub open spec fn read_step(outs: Seq<Seq<char>>, vars: Seq<Seq<Seq<char>>>, p: Seq<int>, k: int) -> bool {
    depends(outs, vars, p[k], p[k + 1])
}

/// `p` is a chain of reads: each rule in it reads the next one.
pub open spec fn read_path(outs: Seq<Seq<char>>, vars: Seq<Seq<Seq<char>>>, p: Seq<int>) -> bool {
    &&& p.len() >= 1
    &&& forall|k: int| 0 <= k < p.len() - 1 ==> #[trigger] read_step(outs, vars, p, k)
}

/// Rule `i` lies on a cycle of reads.
pub open spec fn on_cycle(outs: Seq<Seq<char>>, vars: Seq<Seq<Seq<char>>>, i: int) -> bool {
    exists|p: Seq<int>| #[trigger] read_path(outs, vars, p) && p.len() >= 2 && p[0] == i && p.last() == i
}

/// Rule `i` reaches, through its reads, a rule on a cycle (maybe itself).
pub open spec fn reaches_cycle(outs: Seq<Seq<char>>, vars: Seq<Seq<Seq<char>>>, i: int) -> bool {
    exists|p: Seq<int>| #[trigger] read_path(outs, vars, p) && p[0] == i && on_cycle(outs, vars, p.last())
}

/// Along a chain of reads that starts at a placed rule, every rule is
/// placed, each one earlier than the one before.
proof fn lemma_path_placed(
    outs: Seq<Seq<char>>,
    vars: Seq<Seq<Seq<char>>>,
    order: Seq<usize>,
    p: Seq<int>,
    k0: int,
)
    requires
        read_path(outs, vars, p),
        0 <= k0 < order.len(),
        order[k0] as int == p[0],
        forall|k: int, j: int|
            0 <= k < order.len() && depends(outs, vars, order[k] as int, j) ==> exists|k2: int|
                0 <= k2 < k && #[trigger] order[k2] == j,
    ensures
        exists|k: int| 0 <= k <= k0 - (p.len() - 1) && order[k] as int == p.last(),
    decreases p.len(),
{
    if p.len() == 1 {
        assert(order[k0] as int == p.last());
    } else {
        let q = p.drop_last();
        assert forall|k: int| 0 <= k < q.len() - 1 implies #[trigger] read_step(outs, vars, q, k) by {
            assert(read_step(outs, vars, p, k));
        }
        lemma_path_placed(outs, vars, order, q, k0);
        let k = choose|k: int| 0 <= k <= k0 - (q.len() - 1) && order[k] as int == q.last();
        assert(read_step(outs, vars, p, p.len() - 2));
        assert(depends(outs, vars, order[k] as int, p.last()));
        let k2 = choose|k2: int| 0 <= k2 < k && #[trigger] order[k2] == p.last();
        assert(order[k2] as int == p.last());
    }
}

/// A placed rule reaches no cycle.
proof fn lemma_placed_reaches_no_cycle(
    outs: Seq<Seq<char>>,
    vars: Seq<Seq<Seq<char>>>,
    order: Seq<usize>,
    i: int,
)
    requires
        0 <= i <= usize::MAX,
        order.contains(i as usize),
        order.no_duplicates(),
        forall|k: int, j: int|
            0 <= k < order.len() && depends(outs, vars, order[k] as int, j) ==> exists|k2: int|
                0 <= k2 < k && #[trigger] order[k2] == j,
    ensures
        !reaches_cycle(outs, vars, i),
{
    if reaches_cycle(outs, vars, i) {
        let p = choose|p: Seq<int>| #[trigger] read_path(outs, vars, p) && p[0] == i && on_cycle(outs, vars, p.last());
        let k0 = choose|k: int| 0 <= k < order.len() && order[k] == i as usize;
        lemma_path_placed(outs, vars, order, p, k0);
        let kc = choose|k: int| 0 <= k <= k0 - (p.len() - 1) && order[k] as int == p.last();
        let c = p.last();
        let q = choose|q: Seq<int>| #[trigger] read_path(outs, vars, q) && q.len() >= 2 && q[0] == c && q.last() == c;
        lemma_path_placed(outs, vars, order, q, kc);
        let k2 = choose|k: int| 0 <= k <= kc - (q.len() - 1) && order[k] as int == q.last();
        assert(order[k2] == order[kc]);
        assert(false);
    }
}

/// A left-out dependency of `i` (when there is one).
spec fn left_out_next(outs: Seq<Seq<char>>, vars: Seq<Seq<Seq<char>>>, order: Seq<usize>, i: int) -> int {
    choose|j: int| depends(outs, vars, i, j) && !order.contains(j as usize)
}

/// Starting at `i`, `len` steps to left-out dependencies.
spec fn left_out_chain(outs: Seq<Seq<char>>, vars: Seq<Seq<Seq<char>>>, order: Seq<usize>, i: int, len: nat) -> Seq<int>
    decreases len,
{
    if len == 0 {
        seq![i]
    } else {
        let c = left_out_chain(outs, vars, order, i, (len - 1) as nat);
        c.push(left_out_next(outs, vars, order, c.last()))
    }
}

proof fn lemma_left_out_chain(
    outs: Seq<Seq<char>>,
    vars: Seq<Seq<Seq<char>>>,
    order: Seq<usize>,
    i: int,
    len: nat,
)
    requires
        0 <= i < outs.len() <= usize::MAX,
        !order.contains(i as usize),
        forall|a: int|
            0 <= a < outs.len() && !(#[trigger] order.contains(a as usize)) ==> exists|j: int|
                depends(outs, vars, a, j) && !order.contains(j as usize),
    ensures
        left_out_chain(outs, vars, order, i, len).len() == len + 1,
        left_out_chain(outs, vars, order, i, len)[0] == i,
        read_path(outs, vars, left_out_chain(outs, vars, order, i, len)),
        forall|k: int|
            0 <= k < len + 1 ==> 0 <= #[trigger] left_out_chain(outs, vars, order, i, len)[k] < outs.len()
                && !order.contains(left_out_chain(outs, vars, order, i, len)[k] as usize),
    decreases len,
{
    if len > 0 {
        lemma_left_out_chain(outs, vars, order, i, (len - 1) as nat);
        let c0 = left_out_chain(outs, vars, order, i, (len - 1) as nat);
        let x = c0.last();
        assert(0 <= c0[c0.len() - 1] < outs.len() && !order.contains(c0[c0.len() - 1] as usize));
        assert(!order.contains(x as usize));
        let j = left_out_next(outs, vars, order, x);
        assert(depends(outs, vars, x, j) && !order.contains(j as usize));
        let c = c0.push(j);
        assert(left_out_chain(outs, vars, order, i, len) == c);
        assert forall|k: int| 0 <= k < c.len() - 1 implies #[trigger] read_step(outs, vars, c, k) by {
            if k < c0.len() - 1 {
                assert(read_step(outs, vars, c0, k));
            }
        }
        assert forall|k: int| 0 <= k < len + 1 implies 0 <= #[trigger] c[k] < outs.len() && !order.contains(c[k] as usize) by {
            if k < c0.len() {
                assert(c[k] == c0[k]);
            }
        }
    }
}

/// `n + 1` values below `n` hold a repeat.
proof fn lemma_repeat(c: Seq<int>, n: int)
    requires
        0 <= n <= usize::MAX,
        c.len() == n + 1,
        forall|k: int| 0 <= k < c.len() ==> 0 <= #[trigger] c[k] < n,
    ensures
        exists|a: int, b: int| 0 <= a < b < c.len() && c[a] == c[b],
{
    let s = c.map_values(|x: int| x as usize);
    assert forall|k: int| 0 <= k < s.len() implies s[k] == c[k] && s[k] < n by {
        assert(0 <= c[k] < n);
    }
    if s.no_duplicates() {
        lemma_distinct_below(s, n);
        assert(false);
    }
    let (a, b) = choose|a: int, b: int| 0 <= a < s.len() && 0 <= b < s.len() && a != b && s[a] == s[b];
    assert(s[a] == c[a] && s[b] == c[b]);
    if a < b {
        assert(0 <= a < b < c.len() && c[a] == c[b]);
    } else {
        assert(0 <= b < a < c.len() && c[b] == c[a]);
    }
}

/// A stretch of a chain of reads is a chain of reads.
proof fn lemma_sub_path(outs: Seq<Seq<char>>, vars: Seq<Seq<Seq<char>>>, c: Seq<int>, a: int, b: int)
    requires
        read_path(outs, vars, c),
        0 <= a <= b < c.len(),
    ensures
        read_path(outs, vars, c.subrange(a, b + 1)),
{
    let q = c.subrange(a, b + 1);
    assert forall|k: int| 0 <= k < q.len() - 1 implies #[trigger] read_step(outs, vars, q, k) by {
        assert(read_step(outs, vars, c, a + k));
        assert(q[k] == c[a + k] && q[k + 1] == c[a + k + 1]);
    }
}

/// A rule left out of the order reaches a cycle: following left-out
/// dependencies must repeat a rule within as many steps as there are rules.
proof fn lemma_left_out_reaches_cycle(
    outs: Seq<Seq<char>>,
    vars: Seq<Seq<Seq<char>>>,
    order: Seq<usize>,
    i: int,
)
    requires
        0 <= i < outs.len() <= usize::MAX,
        !order.contains(i as usize),
        forall|a: int|
            0 <= a < outs.len() && !(#[trigger] order.contains(a as usize)) ==> exists|j: int|
                depends(outs, vars, a, j) && !order.contains(j as usize),
    ensures
        reaches_cycle(outs, vars, i),
{
    let n = outs.len();
    lemma_left_out_chain(outs, vars, order, i, n);
    let c = left_out_chain(outs, vars, order, i, n);
    assert forall|k: int| 0 <= k < c.len() implies 0 <= #[trigger] c[k] < n by {}
    lemma_repeat(c, n as int);
    let (a, b) = choose|a: int, b: int| 0 <= a < b < c.len() && c[a] == c[b];
    lemma_sub_path(outs, vars, c, a, b);
    let q = c.subrange(a, b + 1);
    assert(q[0] == c[a] && q.last() == c[b]);
    assert(on_cycle(outs, vars, c[a]));
    lemma_sub_path(outs, vars, c, 0, a);
    let r = c.subrange(0, a + 1);
    assert(r[0] == i && r.last() == c[a]);
}

/// Every index in `d` is marked.
pub open spec fn all_marked_spec(d: Seq<usize>, marks: Seq<bool>) -> bool {
    forall|k: int| 0 <= k < d.len() ==> marks[#[trigger] d[k] as int]
}

/// The order in which rules are evaluated: a rule comes after every rule
/// whose output it reads (of rules that share a name, the last one), and
/// rules are taken breadth first: in the order
/// in which they become ready (when the last rule they read has been
/// placed), and by index among those that become ready together. A rule is
/// left out exactly when it cannot be placed, that is when it reads a rule
/// that is itself left out; these are exactly the rules that lie on a cycle
/// of reads or reach one, and every other rule is placed.
pub fn evaluation_order(outputs: &Vec<String>, variables: &Vec<Vec<String>>) -> (order: Vec<usize>)
    requires
        outputs.len() == variables.len(),
    ensures
        forall|k: int| 0 <= k < order.len() ==> #[trigger] order@[k] < outputs.len(),
        order@.no_duplicates(),
        forall|k: int, j: int|
            0 <= k < order.len() && depends(strings_view(outputs@), lists_view(variables@), order@[k] as int, j)
                ==> exists|k2: int| 0 <= k2 < k && #[trigger] order@[k2] == j,
        forall|i: int|
            0 <= i < outputs.len() && !(#[trigger] order@.contains(i as usize)) ==> exists|j: int|
                depends(strings_view(outputs@), lists_view(variables@), i, j) && !order@.contains(j as usize),
        forall|a: int, b: int| 0 <= a < b < order.len() ==> ready_before(strings_view(outputs@), lists_view(variables@), order@, a, b),
        forall|i: int|
            0 <= i < outputs.len() ==> (#[trigger] order@.contains(i as usize) <==> !reaches_cycle(
                strings_view(outputs@),
                lists_view(variables@),
                i,
            )),
{
    let n = outputs.len();
    let ghost outs = strings_view(outputs@);
    let ghost vars = lists_view(variables@);
    let deps = dependency_lists(outputs, variables);
    let mut queued: Vec<bool> = Vec::new();
    let mut popped: Vec<bool> = Vec::new();
    let mut q: Vec<usize> = Vec::new();
    let mut i: usize = 0;
    while i < n
        invariant
            n == outputs.len(),
            outs.len() == n,
            deps_match(outs, vars, deps@),
            0 <= i <= n,
            queued.len() == i,
            popped.len() == i,
            forall|k: int| 0 <= k < q.len() ==> #[trigger] q@[k] < i,
            q@.no_duplicates(),
            forall|a: int| 0 <= a < i ==> (#[trigger] queued@[a] <==> q@.contains(a as usize)),
            forall|a: int| 0 <= a < i ==> !#[trigger] popped@[a],
            forall|a: int| 0 <= a < i ==> (#[trigger] queued@[a] <==> deps@[a].len() == 0),
            forall|k: int| 0 <= k < q.len() ==> ready_at(outs, vars, q@, k) == -1,
            forall|x: int, y: int| 0 <= x < y < q.len() ==> q@[x] < q@[y],
        decreases n - i,
    {
        let ready = deps[i].len() == 0;
        let ghost qb = q@;
        if ready {
            q.push(i);
        }
        queued.push(ready);
        popped.push(false);
        proof {
            assert forall|a: int| 0 <= a < i + 1 implies (#[trigger] queued@[a] <==> q@.contains(a as usize)) by {
                lemma_push_contains(qb, i, a as usize);
                if a == i && !ready && qb.contains(i) {
                    let k = choose|k: int| 0 <= k < qb.len() && qb[k] == i;
                    assert(qb[k] < i);
                }
            }
            if ready {
                assert forall|a: int, b: int| 0 <= a < b < q.len() implies q@[a] != q@[b] by {
                    if b == q.len() - 1 {
                        assert(qb[a] < i);
                    } else {
                        assert(q@[a] == qb[a] && q@[b] == qb[b]);
                    }
                }
                assert forall|k: int| 0 <= k < q.len() implies ready_at(outs, vars, q@, k) == -1 by {
                    if k < qb.len() {
                        lemma_last_read_push(outs, vars, qb, i, k, k);
                        assert(ready_at(outs, vars, qb, k) == -1);
                    } else {
                        assert(k == qb.len());
                        assert(q@[k] == i);
                        assert forall|m2: int| -1 < m2 < k implies !depends(outs, vars, q@[k] as int, #[trigger] q@[m2] as int) by {
                            assert(q@[m2] < n);
                            if depends(outs, vars, q@[k] as int, q@[m2] as int) {
                                assert(deps@[i as int]@.contains(((q@[m2]) as int) as usize));
                            }
                        }
                        lemma_last_read_value(outs, vars, q@, k, k, -1);
                    }
                }
            }
        }
        i = i + 1;
    }
    proof {
        lemma_distinct_below(q@, n as int);
        assert(q@.take(0) =~= Seq::<usize>::empty());
        assert forall|a: int| 0 <= a < n implies (#[trigger] queued@[a] <==> all_marked_spec(deps@[a]@, popped@)) by {
            if deps@[a].len() > 0 {
                assert(!popped@[deps@[a]@[0] as int]);
            }
        }
        assert forall|a: int, b: int| 0 <= a < b < q.len() implies ready_before(outs, vars, q@, a, b) by {
            assert(ready_at(outs, vars, q@, a) == -1);
            assert(ready_at(outs, vars, q@, b) == -1);
        }
        assert forall|k: int, j: int|
            0 <= k < q.len() && #[trigger] deps@[q@[k] as int]@.contains(j as usize) implies exists|k2: int|
                0 <= k2 < k && k2 < 0 && #[trigger] q@[k2] == j as usize by {
            assert(q@.contains(q@[k]));
            assert(queued@[q@[k] as int]);
            assert(deps@[q@[k] as int]@.len() == 0);
        }
    }
    let mut h: usize = 0;
    while h < q.len()
        invariant
            n == outputs.len(),
            outs.len() == n,
            deps_match(outs, vars, deps@),
            queued.len() == n,
            popped.len() == n,
            h <= q.len() <= n,
            forall|k: int| 0 <= k < q.len() ==> #[trigger] q@[k] < n,
            q@.no_duplicates(),
            forall|a: int| 0 <= a < n ==> (#[trigger] queued@[a] <==> q@.contains(a as usize)),
            forall|a: int| 0 <= a < n ==> (#[trigger] popped@[a] <==> q@.take(h as int).contains(a as usize)),
            forall|k: int, j: int|
                0 <= k < q.len() && #[trigger] deps@[q@[k] as int]@.contains(j as usize) ==> exists|k2: int|
                    0 <= k2 < k && k2 < h && #[trigger] q@[k2] == j as usize,
            forall|a: int| 0 <= a < n ==> (#[trigger] queued@[a] <==> all_marked_spec(deps@[a]@, popped@)),
            forall|k: int| 0 <= k < q.len() ==> ready_at(outs, vars, q@, k) < h,
            forall|a: int, b: int| 0 <= a < b < q.len() ==> ready_before(outs, vars, q@, a, b),
        decreases n - h,
    {
        let idx = q[h];
        let ghost pold = popped@;
        popped.set(idx, true);
        let ghost h_old = h as int;
        h = h + 1;
        proof {
            assert(q@.take(h as int) =~= q@.take(h_old).push(idx));
            assert forall|a: int| 0 <= a < n implies (#[trigger] popped@[a] <==> q@.take(h as int).contains(a as usize)) by {
                lemma_push_contains(q@.take(h_old), idx, a as usize);
            }
            assert forall|k: int, j: int|
                0 <= k < q.len() && #[trigger] deps@[q@[k] as int]@.contains(j as usize) implies exists|k2: int|
                    0 <= k2 < k && k2 < h && #[trigger] q@[k2] == j as usize by {
                let k2 = choose|k2: int| 0 <= k2 < k && k2 < h_old && #[trigger] q@[k2] == j as usize;
            }
        }
        let mut c: usize = 0;
        while c < n
            invariant
                n == outputs.len(),
                outs.len() == n,
                deps_match(outs, vars, deps@),
                queued.len() == n,
                popped.len() == n,
                pold.len() == n,
                0 <= c <= n,
                h == h_old + 1,
                h <= q.len() <= n,
                q@[h_old] == idx,
                idx < n,
                popped@ == pold.update(idx as int, true),
                forall|k: int| 0 <= k < q.len() ==> #[trigger] q@[k] < n,
                q@.no_duplicates(),
                forall|a: int| 0 <= a < n ==> (#[trigger] queued@[a] <==> q@.contains(a as usize)),
                forall|a: int| 0 <= a < n ==> (#[trigger] popped@[a] <==> q@.take(h as int).contains(a as usize)),
                forall|k: int, j: int|
                    0 <= k < q.len() && #[trigger] deps@[q@[k] as int]@.contains(j as usize) ==> exists|k2: int|
                        0 <= k2 < k && k2 < h && #[trigger] q@[k2] == j as usize,
                forall|a: int| 0 <= a < c ==> (#[trigger] queued@[a] <==> all_marked_spec(deps@[a]@, popped@)),
                forall|a: int| c <= a < n ==> (#[trigger] queued@[a] <==> all_marked_spec(deps@[a]@, pold)),
                forall|k: int| 0 <= k < q.len() ==> ready_at(outs, vars, q@, k) <= h_old,
                forall|k: int| 0 <= k < q.len() && ready_at(outs, vars, q@, k) == h_old ==> q@[k] < c,
                forall|a: int, b: int| 0 <= a < b < q.len() ==> ready_before(outs, vars, q@, a, b),
            decreases n - c,
        {
            let ghost d = deps@[c as int]@;
            proof {
                if !queued@[c as int] && all_marked_spec(d, popped@) {
                    let k = choose|k: int| 0 <= k < d.len() && !pold[#[trigger] d[k] as int];
                    assert(d[k] == idx);
                }
            }
            if !queued[c] && holds(&deps[c], idx) && all_marked(&deps[c], &popped) {
                proof {
                    assert(!q@.contains(c as usize));
                    lemma_distinct_below(q@.push(c), n as int);
                }
                let ghost qb = q@;
                q.push(c);
                queued.set(c, true);
                proof {
                    assert forall|a: int| 0 <= a < n implies (#[trigger] queued@[a] <==> q@.contains(a as usize)) by {
                        lemma_push_contains(qb, c, a as usize);
                    }
                    assert(q@.take(h as int) =~= qb.take(h as int));
                    assert forall|k: int, j: int|
                        0 <= k < q.len() && #[trigger] deps@[q@[k] as int]@.contains(j as usize) implies exists|k2: int|
                            0 <= k2 < k && k2 < h && #[trigger] q@[k2] == j as usize by {
                        if k < qb.len() {
                            assert(q@[k] == qb[k]);
                            let k2 = choose|k2: int| 0 <= k2 < k && k2 < h && #[trigger] qb[k2] == j as usize;
                            assert(q@[k2] == j as usize);
                        } else {
                            let m = choose|m: int| 0 <= m < d.len() && d[m] == j as usize;
                            assert(popped@[d[m] as int]);
                            assert(q@.take(h as int).contains(j as usize));
                            let k2 = choose|k2: int| 0 <= k2 < h && q@.take(h as int)[k2] == j as usize;
                            assert(q@[k2] == j as usize);
                        }
                    }
                    // the new entry became ready at the position just processed
                    let last = q.len() - 1;
                    assert forall|m2: int| h_old < m2 < last implies !depends(outs, vars, q@[last] as int, #[trigger] q@[m2] as int) by {
                        if depends(outs, vars, q@[last] as int, q@[m2] as int) {
                            assert(d.contains(((q@[m2]) as int) as usize));
                            let m = choose|m: int| 0 <= m < d.len() && d[m] == q@[m2];
                            assert(popped@[d[m] as int]);
                            assert(q@.take(h as int).contains(q@[m2]));
                            let k2 = choose|k2: int| 0 <= k2 < h && q@.take(h as int)[k2] == q@[m2];
                            assert(q@[k2] == q@[m2]);
                        }
                    }
                    assert(d.contains(idx));
                    assert(depends(outs, vars, q@[last] as int, q@[h_old] as int)) by {
                        assert(d.contains(((q@[h_old]) as int) as usize));
                    }
                    lemma_last_read_value(outs, vars, q@, last, last, h_old);
                    assert forall|k: int| 0 <= k < qb.len() implies ready_at(outs, vars, q@, k) == ready_at(outs, vars, qb, k) by {
                        lemma_last_read_push(outs, vars, qb, c, k, k);
                    }
                    assert(ready_at(outs, vars, q@, last as int) == h_old);
                    assert forall|a: int, b: int| 0 <= a < b < q.len() implies ready_before(outs, vars, q@, a, b) by {
                        assert(ready_at(outs, vars, q@, a) == ready_at(outs, vars, qb, a));
                        assert(q@[a] == qb[a]);
                        if b < qb.len() {
                            assert(q@[b] == qb[b]);
                            assert(ready_at(outs, vars, q@, b) == ready_at(outs, vars, qb, b));
                            assert(ready_before(outs, vars, qb, a, b));
                        } else {
                            assert(b == last);
                            assert(q@[b] == c);
                            assert(ready_at(outs, vars, qb, a) <= h_old);
                            if ready_at(outs, vars, qb, a) == h_old {
                                assert(qb[a] < c);
                            }
                        }
                    }
                    assert forall|k: int| 0 <= k < q.len() && ready_at(outs, vars, q@, k) == h_old implies q@[k] < c + 1 by {
                        if k < qb.len() {
                            assert(q@[k] == qb[k]);
                            assert(ready_at(outs, vars, q@, k) == ready_at(outs, vars, qb, k));
                        } else {
                            assert(q@[k] == c);
                        }
                    }
                    assert forall|k: int| 0 <= k < q.len() implies ready_at(outs, vars, q@, k) <= h_old by {
                        if k < qb.len() {
                            assert(ready_at(outs, vars, q@, k) == ready_at(outs, vars, qb, k));
                        }
                    }
                    assert forall|a: int| 0 <= a < c + 1 implies (#[trigger] queued@[a] <==> all_marked_spec(deps@[a]@, popped@)) by {
                    }
                }
            } else {
                proof {
                    assert forall|k: int| 0 <= k < q.len() && ready_at(outs, vars, q@, k) == h_old implies q@[k] < c + 1 by {
                    }
                    if queued@[c as int] {
                        // ready before: its dependencies were popped already
                        assert forall|k: int| 0 <= k < d.len() implies popped@[#[trigger] d[k] as int] by {
                            assert(pold[d[k] as int]);
                        }
                    }
                }
            }
            c = c + 1;
        }
        proof {
            assert forall|k: int| 0 <= k < q.len() implies ready_at(outs, vars, q@, k) < h by {
            }
        }
    }
    proof {
        assert(q@.take(h as int) =~= q@);
        assert forall|k: int, j: int|
            0 <= k < q.len() && depends(outs, vars, q@[k] as int, j) implies exists|k2: int| 0 <= k2 < k && #[trigger] q@[k2] == j by {
            assert(deps@[q@[k] as int]@.contains(j as usize));
            let k2 = choose|k2: int| 0 <= k2 < k && k2 < h && #[trigger] q@[k2] == j as usize;
            assert(q@[k2] == j);
        }
        assert forall|a: int|
            0 <= a < n && !(#[trigger] q@.contains(a as usize)) implies exists|j: int|
                depends(outs, vars, a, j) && !q@.contains(j as usize) by {
            assert(!queued@[a]);
            assert(!all_marked_spec(deps@[a]@, popped@));
            let k = choose|k: int| 0 <= k < deps@[a]@.len() && !popped@[#[trigger] deps@[a]@[k] as int];
            let j = deps@[a]@[k] as int;
            assert(deps@[a]@.contains(j as usize));
            assert(depends(outs, vars, a, j));
        }
        assert forall|i: int| 0 <= i < n implies (#[trigger] q@.contains(i as usize) <==> !reaches_cycle(outs, vars, i)) by {
            if q@.contains(i as usize) {
                lemma_placed_reaches_no_cycle(outs, vars, q@, i);
            } else {
                lemma_left_out_reaches_cycle(outs, vars, q@, i);
            }
        }
    }
    q
}

// ------------------------------------------------------------------
//  Rules kept by the engine
// ------------------------------------------------------------------

/// Rule `i` compiled and no earlier compiled rule has its output name.
pub open spec fn kept_rule(names: Seq<Seq<char>>, ok: Seq<bool>, i: int) -> bool {
    &&& ok[i]
    &&& forall|j: int| 0 <= j < i ==> !(ok[j] && names[j] == names[i])
}

/// The rules the engine keeps, in input order: those that compiled
/// (`ok`), less any whose output name an earlier kept rule already has.
pub fn kept_rules(names: &Vec<String>, ok: &Vec<bool>) -> (r: Vec<usize>)
    requires
        names.len() == ok.len(),
    ensures
        forall|k: int| 0 <= k < r.len() ==> #[trigger] r@[k] < names.len(),
        forall|a: int, b: int| 0 <= a < b < r.len() ==> r@[a] < r@[b],
        forall|i: int| 0 <= i < names.len() ==> (#[trigger] r@.contains(i as usize) <==> kept_rule(
            strings_view(names@),
            ok@,
            i,
        )),
{
    let ghost nv = strings_view(names@);
    let mut r: Vec<usize> = Vec::new();
    let mut seen: Vec<String> = Vec::new();
    let mut i: usize = 0;
    while i < names.len()
        invariant
            names.len() == ok.len(),
            nv == strings_view(names@),
            0 <= i <= names.len(),
            forall|k: int| 0 <= k < r.len() ==> #[trigger] r@[k] < i,
            forall|a: int, b: int| 0 <= a < b < r.len() ==> r@[a] < r@[b],
            forall|a: int| 0 <= a < i ==> (#[trigger] r@.contains(a as usize) <==> kept_rule(nv, ok@, a)),
            forall|x: Seq<char>| #[trigger] strings_view(seen@).contains(x) <==> exists|j: int|
                0 <= j < i && ok@[j] && #[trigger] nv[j] == x,
        decreases names.len() - i,
    {
        assert(nv[i as int] == names@[i as int]@);
        let dup = contains_str(&seen, names[i].as_str());
        let ghost rb = r@;
        let ghost sb = strings_view(seen@);
        if ok[i] && !dup {
            r.push(i);
            seen.push(names[i].clone());
            assert(strings_view(seen@) =~= sb.push(nv[i as int]));
        }
        proof {
            assert forall|a: int| 0 <= a < i + 1 implies (#[trigger] r@.contains(a as usize) <==> kept_rule(nv, ok@, a)) by {
                lemma_push_contains(rb, i, a as usize);
                if a == i {
                    if rb.contains(i) {
                        let k = choose|k: int| 0 <= k < rb.len() && rb[k] == i;
                        assert(rb[k] < i);
                    }
                    if dup {
                        let j = choose|j: int| 0 <= j < i && ok@[j] && #[trigger] nv[j] == nv[i as int];
                        assert(!kept_rule(nv, ok@, a));
                    }
                }
            }
            assert forall|k: int| 0 <= k < r.len() implies #[trigger] r@[k] < i + 1 by {
                if k < rb.len() {
                    assert(r@[k] == rb[k]);
                }
            }
            assert forall|x: Seq<char>| #[trigger] strings_view(seen@).contains(x) <==> exists|j: int|
                0 <= j < i + 1 && ok@[j] && #[trigger] nv[j] == x by {
                if ok[i as int] && !dup {
                    if x == nv[i as int] {
                        assert(strings_view(seen@)[sb.len() as int] == x);
                    } else if strings_view(seen@).contains(x) {
                        let m = choose|m: int| 0 <= m < strings_view(seen@).len() && strings_view(seen@)[m] == x;
                        assert(sb[m] == x);
                        assert(sb.contains(x));
                    } else if exists|j: int| 0 <= j < i + 1 && ok@[j] && #[trigger] nv[j] == x {
                        let j = choose|j: int| 0 <= j < i + 1 && ok@[j] && #[trigger] nv[j] == x;
                        assert(j < i);
                        assert(sb.contains(x));
                        let m = choose|m: int| 0 <= m < sb.len() && sb[m] == x;
                        assert(strings_view(seen@)[m] == x);
                    }
                } else {
                    assert(strings_view(seen@) == sb);
                    if exists|j: int| 0 <= j < i + 1 && ok@[j] && #[trigger] nv[j] == x {
                        let j = choose|j: int| 0 <= j < i + 1 && ok@[j] && #[trigger] nv[j] == x;
                        if j == i {
                            assert(dup);
                            assert(sb.contains(nv[i as int]));
                        }
                    }
                }
            }
        }
        i = i + 1;
    }
    r
}

// ------------------------------------------------------------------
//  Inputs
// ------------------------------------------------------------------

/// All variable lists, one after the other.
pub open spec fn flat(vars: Seq<Seq<Seq<char>>>) -> Seq<Seq<char>>
    decreases vars.len(),
{
    if vars.len() == 0 {
        Seq::empty()
    } else {
        flat(vars.drop_last()) + vars.last()
    }
}

/// The entries of `s` that are not in `outputs`, in order.
pub open spec fn not_produced(s: Seq<Seq<char>>, outputs: Seq<Seq<char>>) -> Seq<Seq<char>>
    decreases s.len(),
{
    if s.len() == 0 {
        Seq::empty()
    } else if outputs.contains(s.last()) {
        not_produced(s.drop_last(), outputs)
    } else {
        not_produced(s.drop_last(), outputs).push(s.last())
    }
}

/// The names some rule reads that no rule produces.
pub open spec fn base_names(outputs: Seq<Seq<char>>, vars: Seq<Seq<Seq<char>>>) -> Set<Seq<char>> {
    Set::new(|v: Seq<char>| (exists|i: int| 0 <= i < vars.len() && #[trigger] vars[i].contains(v)) && !outputs.contains(v))
}

proof fn lemma_not_produced_contains(s: Seq<Seq<char>>, outputs: Seq<Seq<char>>, v: Seq<char>)
    ensures
        not_produced(s, outputs).contains(v) <==> (s.contains(v) && !outputs.contains(v)),
    decreases s.len(),
{
    if s.len() > 0 {
        lemma_not_produced_contains(s.drop_last(), outputs, v);
        assert(s =~= s.drop_last().push(s.last()));
        vstd::seq_lib::lemma_seq_contains_after_push(s.drop_last(), s.last(), v);
        vstd::seq_lib::lemma_seq_contains_after_push(not_produced(s.drop_last(), outputs), s.last(), v);
    }
}

proof fn lemma_flat_contains(vars: Seq<Seq<Seq<char>>>, v: Seq<char>)
    ensures
        flat(vars).contains(v) <==> exists|i: int| 0 <= i < vars.len() && #[trigger] vars[i].contains(v),
    decreases vars.len(),
{
    if vars.len() > 0 {
        let init = vars.drop_last();
        lemma_flat_contains(init, v);
        vstd::seq_lib::lemma_seq_concat_contains_all_elements(flat(init), vars.last(), v);
        if exists|i: int| 0 <= i < vars.len() && #[trigger] vars[i].contains(v) {
            let i = choose|i: int| 0 <= i < vars.len() && #[trigger] vars[i].contains(v);
            if i < vars.len() - 1 {
                assert(init[i].contains(v));
            }
        }
        if exists|i: int| 0 <= i < init.len() && #[trigger] init[i].contains(v) {
            let i = choose|i: int| 0 <= i < init.len() && #[trigger] init[i].contains(v);
            assert(vars[i].contains(v));
        }
    }
}

/// The variables the rules read that none of them produces, each once, in
/// increasing order: what the rules need from outside.
pub fn base_variables(outputs: &Vec<String>, variables: &Vec<Vec<String>>) -> (r: Vec<String>)
    ensures
        sorted_strict(strings_view(r@)),
        strings_view(r@).to_set() == base_names(strings_view(outputs@), lists_view(variables@)),
{
    let ghost outs = strings_view(outputs@);
    let ghost vars = lists_view(variables@);
    let mut all: Vec<String> = Vec::new();
    let mut i: usize = 0;
    assert(vars.take(0) =~= Seq::<Seq<Seq<char>>>::empty());
    while i < variables.len()
        invariant
            0 <= i <= variables.len(),
            outs == strings_view(outputs@),
            vars == lists_view(variables@),
            strings_view(all@) == not_produced(flat(vars.take(i as int)), outs),
        decreases variables.len() - i,
    {
        let row = &variables[i];
        let ghost rv = strings_view(row@);
        assert(vars[i as int] == rv);
        assert(vars.take(i + 1).drop_last() =~= vars.take(i as int));
        assert(flat(vars.take(i + 1)) == flat(vars.take(i as int)) + rv);
        let mut k: usize = 0;
        assert(flat(vars.take(i as int)) + rv.take(0) =~= flat(vars.take(i as int)));
        while k < row.len()
            invariant
                0 <= i < variables.len(),
                row == &variables[i as int],
                rv == strings_view(row@),
                0 <= k <= row.len(),
                outs == strings_view(outputs@),
                strings_view(all@) == not_produced(flat(vars.take(i as int)) + rv.take(k as int), outs),
            decreases row.len() - k,
        {
            let ghost before = flat(vars.take(i as int)) + rv.take(k as int);
            let name = &row[k];
            assert(flat(vars.take(i as int)) + rv.take(k + 1) =~= before.push(name@));
            assert(before.push(name@).drop_last() =~= before);
            if !contains_str(outputs, name.as_str()) {
                let ghost sb = strings_view(all@);
                all.push(name.clone());
                assert(strings_view(all@) =~= sb.push(name@));
            }
            k = k + 1;
        }
        assert(rv.take(row.len() as int) =~= rv);
        i = i + 1;
    }
    let r = sorted_unique(&all);
    proof {
        assert(vars.take(vars.len() as int) =~= vars);
        assert forall|v: Seq<char>| #[trigger] strings_view(r@).to_set().contains(v) <==> base_names(outs, vars).contains(v) by {
            lemma_not_produced_contains(flat(vars), outs, v);
            lemma_flat_contains(vars, v);
        }
        assert(strings_view(r@).to_set() =~= base_names(outs, vars));
    }
    r
}


/// The entries of `names`, in order, that `known` does not hold.
pub open spec fn not_known(names: Seq<Seq<char>>, known: Seq<Seq<char>>) -> Seq<Seq<char>>
    decreases names.len(),
{
    if names.len() == 0 {
        Seq::empty()
    } else if known.contains(names.last()) {
        not_known(names.drop_last(), known)
    } else {
        not_known(names.drop_last(), known).push(names.last())
    }
}

/// The variables the rules need that no device data point provides: the
/// entries of `required`, in order, that are not among `known`.
pub fn undefined_variables(required: &Vec<String>, known: &Vec<String>) -> (r: Vec<String>)
    ensures
        strings_view(r@) == not_known(strings_view(required@), strings_view(known@)),
{
    let ghost rv = strings_view(required@);
    let mut out: Vec<String> = Vec::new();
    let mut i: usize = 0;
    assert(rv.take(0) =~= Seq::<Seq<char>>::empty());
    while i < required.len()
        invariant
            0 <= i <= required.len(),
            rv == strings_view(required@),
            strings_view(out@) == not_known(rv.take(i as int), strings_view(known@)),
        decreases required.len() - i,
    {
        assert(rv.take(i + 1).drop_last() =~= rv.take(i as int));
        assert(rv[i as int] == required@[i as int]@);
        let ghost before = strings_view(out@);
        if !contains_str(known, required[i].as_str()) {
            out.push(required[i].clone());
            assert(strings_view(out@) =~= before.push(rv[i as int]));
        }
        i = i + 1;
    }
    assert(rv.take(required.len() as int) =~= rv);
    out
}

} // verus!
