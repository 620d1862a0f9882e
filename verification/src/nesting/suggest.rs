//! Rewrite suggestions for a rule report.

use vstd::prelude::*;

use super::metrics::{RuleReport, Thresholds};
use crate::numtext::{trim_chars, trimmed};
use crate::text::{decimal, push_decimal, push_str, string_from_chars, strings_view};

verus! {

/// A suggestion: a short title and an explanation.
#[derive(Debug, Clone)]
pub struct Suggestion {
    pub title: String,
    pub detail: String,
}

/// The strings of `v` separated by `sep`.
pub open spec fn joined(v: Seq<Seq<char>>, sep: Seq<char>) -> Seq<char>
    decreases v.len(),
{
    if v.len() == 0 {
        Seq::empty()
    } else if v.len() == 1 {
        v[0]
    } else {
        joined(v.drop_last(), sep) + sep + v.last()
    }
}

/// Joins strings with a separator.
pub fn join_strings(v: &Vec<String>, sep: &str) -> (s: String)
    ensures
        s@ == joined(strings_view(v@), sep@),
{
    let ghost sv = strings_view(v@);
    let mut out: Vec<char> = Vec::new();
    let mut i: usize = 0;
    assert(sv.take(0) =~= Seq::<Seq<char>>::empty());
    while i < v.len()
        invariant
            0 <= i <= v.len(),
            sv == strings_view(v@),
            out@ == joined(sv.take(i as int), sep@),
        decreases v.len() - i,
    {
        let ghost before = out@;
        if i > 0 {
            push_str(&mut out, sep);
        }
        push_str(&mut out, v[i].as_str());
        assert(sv.take(i + 1).drop_last() =~= sv.take(i as int));
        assert(sv.take(i + 1).last() == v@[i as int]@);
        if i == 0 {
            assert(sv.take(1)[0] == v@[0]@);
            assert(out@ =~= joined(sv.take(1), sep@));
        } else {
            assert(out@ =~= before + sep@ + v@[i as int]@);
        }
        i = i + 1;
    }
    assert(sv.take(v.len() as int) =~= sv);
    string_from_chars(out.as_slice())
}

/// Number of UTF-8 bytes of a character.
pub open spec fn utf8_width(c: char) -> nat {
    if (c as u32) < 0x80 {
        1
    } else if (c as u32) < 0x800 {
        2
    } else if (c as u32) < 0x1_0000 {
        3
    } else {
        4
    }
}

/// Number of UTF-8 bytes of a text (what `str::len` counts).
pub open spec fn utf8_len(s: Seq<char>) -> nat
    decreases s.len(),
{
    if s.len() == 0 {
        0
    } else {
        utf8_len(s.drop_last()) + utf8_width(s.last())
    }
}

/// Whether `c` is one of `+ - * / %`.
pub open spec fn is_arith(c: char) -> bool {
    c == '+' || c == '-' || c == '*' || c == '/' || c == '%'
}

/// Number of arithmetic operator characters in `s`.
pub open spec fn arith_count(s: Seq<char>) -> nat
    decreases s.len(),
{
    if s.len() == 0 {
        0
    } else {
        arith_count(s.drop_last()) + if is_arith(s.last()) {
            1nat
        } else {
            0nat
        }
    }
}

/// A formula is trivial when it has no parenthesis, is at most 30 bytes
/// long and splits into at most three pieces at `+ - * / %`.
pub open spec fn trivial(s: Seq<char>) -> bool {
    !s.contains('(') && utf8_len(s) <= 30 && arith_count(s) + 1 <= 3
}

/// Heuristic for a formula that is only a unit conversion.
pub fn expression_is_trivial(expr: &str) -> (b: bool)
    ensures
        b == trivial(expr@),
{
    let cs = crate::text::chars_of(expr);
    let mut bytes: usize = 0;
    let mut ops: usize = 0;
    let mut paren = false;
    let mut i: usize = 0;
    assert(cs@.take(0) =~= Seq::<char>::empty());
    while i < cs.len()
        invariant
            0 <= i <= cs.len(),
            cs@ == expr@,
            ops <= i,
            bytes == (if utf8_len(cs@.take(i as int)) > 31 {
                31
            } else {
                utf8_len(cs@.take(i as int))
            }),
            ops == arith_count(cs@.take(i as int)),
            paren == cs@.take(i as int).contains('('),
        decreases cs.len() - i,
    {
        let c = cs[i];
        assert(cs@.take(i + 1).drop_last() =~= cs@.take(i as int));
        assert(cs@.take(i + 1).last() == c);
        let u = c as u32;
        let w: usize = if u < 0x80 {
            1
        } else if u < 0x800 {
            2
        } else if u < 0x1_0000 {
            3
        } else {
            4
        };
        bytes = if bytes + w > 31 {
            31
        } else {
            bytes + w
        };
        if c == '+' || c == '-' || c == '*' || c == '/' || c == '%' {
            ops = ops + 1;
        }
        proof {
            vstd::seq_lib::lemma_seq_contains_after_push(cs@.take(i as int), c, '(');
            assert(cs@.take(i + 1) =~= cs@.take(i as int).push(c));
        }
        if c == '(' {
            paren = true;
        }
        i = i + 1;
    }
    assert(cs@.take(cs.len() as int) =~= cs@);
    !paren && bytes <= 30 && ops <= 2
}

pub open spec fn self_ref_detail_text(name: Seq<char>, expr: Seq<char>) -> Seq<char> {
    "规则 `"@
        + name
        + " = "@
        + expr
        + "` 里出现了 `"@
        + name
        + "` 自身，无法求值。\ncalc_engine 会在编译阶段跳过此规则。修正方式：\n• 改名：若你想引用的是基础变量（如来自 CSV 采集），改用不同的名字避开 kks_calc；\n• 上一轮值：如果确实需要回馈（IIR 滤波式），需要在引擎侧额外支持，当前不支持。"@
}

pub open spec fn cycle_detail_text(name: Seq<char>) -> Seq<char> {
    "规则 `"@
        + name
        + "` 与其他规则形成循环引用链，calc_engine 会把循环节点\n以及依赖循环节点的下游规则全部跳过。\n修正方式：打破环。通常是把其中某条规则的依赖替换为基础变量，\n或将两个规则合并为一条表达式。"@
}

pub open spec fn deep_title_text(depth: nat, limit: nat) -> Seq<char> {
    "引用链过深（深度 "@
        + decimal(depth)
        + "，阈值 "@
        + decimal(limit)
        + "）"@
}

pub open spec fn deep_detail_text(chain: Seq<char>, name: Seq<char>) -> Seq<char> {
    "最长链条："@
        + chain
        + "。\n建议：\n• 用内联展开把中间规则合并到顶层，减少层级；\n• 或者重新组织变量命名，让 `"@
        + name
        + "` 直接引用基础变量而非链式中转。\n深层链条不影响求值正确性，但维护成本高、读图难。"@
}

pub open spec fn deepish_title_text(depth: nat) -> Seq<char> {
    "引用链偏深（深度 "@
        + decimal(depth)
        + "）"@
}

pub open spec fn deepish_detail_text(chain: Seq<char>) -> Seq<char> {
    "当前链条："@
        + chain
        + "。\n可考虑把这条链里最简单的中间规则（如只做单位换算的）展开回来。"@
}

pub open spec fn many_title_text(count: nat, limit: nat) -> Seq<char> {
    "依赖变量过多（"@
        + decimal(count)
        + " 个，阈值 "@
        + decimal(limit)
        + "）"@
}

pub open spec fn many_detail_text(name: Seq<char>, count: nat, deps: Seq<char>) -> Seq<char> {
    "规则 `"@
        + name
        + "` 的表达式里引用了 "@
        + decimal(count)
        + " 个变量。高耦合往往意味着这条规则\n在做多个不相关的聚合，可拆成多条规则后再求和。\n依赖列表："@
        + deps
}

pub open spec fn several_title_text(count: nat) -> Seq<char> {
    "依赖变量较多（"@
        + decimal(count)
        + " 个）"@
}

pub open spec fn several_detail_text(deps: Seq<char>) -> Seq<char> {
    "依赖列表："@
        + deps
        + "。当前尚可接受，但如果继续增加请考虑拆分。"@
}

pub open spec fn inline_detail_text(name: Seq<char>, user: Seq<char>, expr: Seq<char>) -> Seq<char> {
    "规则 `"@
        + name
        + "` 仅被 `"@
        + user
        + "` 引用，且表达式较简单 (`"@
        + expr
        + "`)。\n若没有独立的业务含义（比如需要单独发布到 OPC UA），可直接把表达式\n嵌入 `"@
        + user
        + "` 的公式里，减少 calc.toml 规则条数。"@
}

fn self_ref_detail(name: &str, expr: &str) -> (s: String)
    ensures
        s@ == self_ref_detail_text(name@, expr@),
{
    let mut out: Vec<char> = Vec::new();
    push_str(&mut out, "规则 `");
    push_str(&mut out, name);
    push_str(&mut out, " = ");
    push_str(&mut out, expr);
    push_str(&mut out, "` 里出现了 `");
    push_str(&mut out, name);
    push_str(&mut out, "` 自身，无法求值。\ncalc_engine 会在编译阶段跳过此规则。修正方式：\n• 改名：若你想引用的是基础变量（如来自 CSV 采集），改用不同的名字避开 kks_calc；\n• 上一轮值：如果确实需要回馈（IIR 滤波式），需要在引擎侧额外支持，当前不支持。");
    string_from_chars(out.as_slice())
}

fn cycle_detail(name: &str) -> (s: String)
    ensures
        s@ == cycle_detail_text(name@),
{
    let mut out: Vec<char> = Vec::new();
    push_str(&mut out, "规则 `");
    push_str(&mut out, name);
    push_str(&mut out, "` 与其他规则形成循环引用链，calc_engine 会把循环节点\n以及依赖循环节点的下游规则全部跳过。\n修正方式：打破环。通常是把其中某条规则的依赖替换为基础变量，\n或将两个规则合并为一条表达式。");
    string_from_chars(out.as_slice())
}

fn deep_title(depth: usize, limit: usize) -> (s: String)
    ensures
        s@ == deep_title_text(depth as nat, limit as nat),
{
    let mut out: Vec<char> = Vec::new();
    push_str(&mut out, "引用链过深（深度 ");
    push_decimal(&mut out, depth as u64);
    push_str(&mut out, "，阈值 ");
    push_decimal(&mut out, limit as u64);
    push_str(&mut out, "）");
    string_from_chars(out.as_slice())
}

fn deep_detail(chain: &str, name: &str) -> (s: String)
    ensures
        s@ == deep_detail_text(chain@, name@),
{
    let mut out: Vec<char> = Vec::new();
    push_str(&mut out, "最长链条：");
    push_str(&mut out, chain);
    push_str(&mut out, "。\n建议：\n• 用内联展开把中间规则合并到顶层，减少层级；\n• 或者重新组织变量命名，让 `");
    push_str(&mut out, name);
    push_str(&mut out, "` 直接引用基础变量而非链式中转。\n深层链条不影响求值正确性，但维护成本高、读图难。");
    string_from_chars(out.as_slice())
}

fn deepish_title(depth: usize) -> (s: String)
    ensures
        s@ == deepish_title_text(depth as nat),
{
    let mut out: Vec<char> = Vec::new();
    push_str(&mut out, "引用链偏深（深度 ");
    push_decimal(&mut out, depth as u64);
    push_str(&mut out, "）");
    string_from_chars(out.as_slice())
}

fn deepish_detail(chain: &str) -> (s: String)
    ensures
        s@ == deepish_detail_text(chain@),
{
    let mut out: Vec<char> = Vec::new();
    push_str(&mut out, "当前链条：");
    push_str(&mut out, chain);
    push_str(&mut out, "。\n可考虑把这条链里最简单的中间规则（如只做单位换算的）展开回来。");
    string_from_chars(out.as_slice())
}

fn many_title(count: usize, limit: usize) -> (s: String)
    ensures
        s@ == many_title_text(count as nat, limit as nat),
{
    let mut out: Vec<char> = Vec::new();
    push_str(&mut out, "依赖变量过多（");
    push_decimal(&mut out, count as u64);
    push_str(&mut out, " 个，阈值 ");
    push_decimal(&mut out, limit as u64);
    push_str(&mut out, "）");
    string_from_chars(out.as_slice())
}

fn many_detail(name: &str, count: usize, deps: &str) -> (s: String)
    ensures
        s@ == many_detail_text(name@, count as nat, deps@),
{
    let mut out: Vec<char> = Vec::new();
    push_str(&mut out, "规则 `");
    push_str(&mut out, name);
    push_str(&mut out, "` 的表达式里引用了 ");
    push_decimal(&mut out, count as u64);
    push_str(&mut out, " 个变量。高耦合往往意味着这条规则\n在做多个不相关的聚合，可拆成多条规则后再求和。\n依赖列表：");
    push_str(&mut out, deps);
    string_from_chars(out.as_slice())
}

fn several_title(count: usize) -> (s: String)
    ensures
        s@ == several_title_text(count as nat),
{
    let mut out: Vec<char> = Vec::new();
    push_str(&mut out, "依赖变量较多（");
    push_decimal(&mut out, count as u64);
    push_str(&mut out, " 个）");
    string_from_chars(out.as_slice())
}

fn several_detail(deps: &str) -> (s: String)
    ensures
        s@ == several_detail_text(deps@),
{
    let mut out: Vec<char> = Vec::new();
    push_str(&mut out, "依赖列表：");
    push_str(&mut out, deps);
    push_str(&mut out, "。当前尚可接受，但如果继续增加请考虑拆分。");
    string_from_chars(out.as_slice())
}

fn inline_detail(name: &str, user: &str, expr: &str) -> (s: String)
    ensures
        s@ == inline_detail_text(name@, user@, expr@),
{
    let mut out: Vec<char> = Vec::new();
    push_str(&mut out, "规则 `");
    push_str(&mut out, name);
    push_str(&mut out, "` 仅被 `");
    push_str(&mut out, user);
    push_str(&mut out, "` 引用，且表达式较简单 (`");
    push_str(&mut out, expr);
    push_str(&mut out, "`)。\n若没有独立的业务含义（比如需要单独发布到 OPC UA），可直接把表达式\n嵌入 `");
    push_str(&mut out, user);
    push_str(&mut out, "` 的公式里，减少 calc.toml 规则条数。");
    string_from_chars(out.as_slice())
}

/// Titles and explanations of the suggestions for a report: the fatal
/// problem (self-reference, else cycle), then chain depth (only without a
/// fatal problem), then number of variables, then inlining of a trivial
/// rule read by one other rule.
pub open spec fn suggestion_list(r: RuleReport, t: Thresholds) -> Seq<(Seq<char>, Seq<char>)> {
    let name = r.name@;
    let expr = r.expression@;
    let depth = r.max_chain_depth as nat;
    let count = r.direct_deps.len() as nat;
    let chain = joined(strings_view(r.chain_example@), " → "@);
    let deps = joined(strings_view(r.direct_deps@), ", "@);
    let fatal = if r.is_self_ref {
        seq![("表达式引用了自身"@, self_ref_detail_text(name, expr))]
    } else if r.in_cycle {
        seq![("循环依赖"@, cycle_detail_text(name))]
    } else {
        Seq::empty()
    };
    let deep = if !r.in_cycle && !r.is_self_ref {
        if depth >= t.depth_critical {
            seq![(deep_title_text(depth, t.depth_critical as nat), deep_detail_text(chain, name))]
        } else if depth >= t.depth_high {
            seq![(deepish_title_text(depth), deepish_detail_text(chain))]
        } else {
            Seq::empty()
        }
    } else {
        Seq::empty()
    };
    let wide = if count >= t.deps_high {
        seq![(many_title_text(count, t.deps_high as nat), many_detail_text(name, count, deps))]
    } else if count >= t.deps_medium {
        seq![(several_title_text(count), several_detail_text(deps))]
    } else {
        Seq::empty()
    };
    let inline = if r.dependents.len() == 1 && trivial(expr) {
        seq![("可考虑内联到唯一调用处"@, inline_detail_text(name, r.dependents@[0]@, trimmed(expr)))]
    } else {
        Seq::empty()
    };
    fatal + deep + wide + inline
}

/// Model of a list of suggestions.
pub open spec fn suggestions_view(v: Seq<Suggestion>) -> Seq<(Seq<char>, Seq<char>)> {
    v.map_values(|s: Suggestion| (s.title@, s.detail@))
}

fn text(s: &str) -> (r: String)
    ensures
        r@ == s@,
{
    let mut out: Vec<char> = Vec::new();
    push_str(&mut out, s);
    string_from_chars(out.as_slice())
}

/// The suggestions for a report.
pub fn suggest(r: &RuleReport, t: &Thresholds) -> (out: Vec<Suggestion>)
    ensures
        suggestions_view(out@) == suggestion_list(*r, *t),
{
    let mut out: Vec<Suggestion> = Vec::new();
    let name = r.name.as_str();
    let expr = r.expression.as_str();
    let ghost fatal: Seq<(Seq<char>, Seq<char>)> = Seq::empty();
    if r.is_self_ref {
        out.push(Suggestion { title: text("表达式引用了自身"), detail: self_ref_detail(name, expr) });
    } else if r.in_cycle {
        out.push(Suggestion { title: text("循环依赖"), detail: cycle_detail(name) });
    }
    let ghost after_fatal = suggestions_view(out@);
    if !r.in_cycle && !r.is_self_ref {
        if r.max_chain_depth >= t.depth_critical {
            let chain = join_strings(&r.chain_example, " → ");
            out.push(Suggestion {
                title: deep_title(r.max_chain_depth, t.depth_critical),
                detail: deep_detail(chain.as_str(), name),
            });
        } else if r.max_chain_depth >= t.depth_high {
            let chain = join_strings(&r.chain_example, " → ");
            out.push(Suggestion { title: deepish_title(r.max_chain_depth), detail: deepish_detail(chain.as_str()) });
        }
    }
    let ghost after_deep = suggestions_view(out@);
    let count = r.direct_deps.len();
    if count >= t.deps_high {
        let deps = join_strings(&r.direct_deps, ", ");
        out.push(Suggestion { title: many_title(count, t.deps_high), detail: many_detail(name, count, deps.as_str()) });
    } else if count >= t.deps_medium {
        let deps = join_strings(&r.direct_deps, ", ");
        out.push(Suggestion { title: several_title(count), detail: several_detail(deps.as_str()) });
    }
    let ghost after_wide = suggestions_view(out@);
    if r.dependents.len() == 1 && expression_is_trivial(expr) {
        let trimmed_expr = string_from_chars(trim_chars(expr).as_slice());
        out.push(Suggestion {
            title: text("可考虑内联到唯一调用处"),
            detail: inline_detail(name, r.dependents[0].as_str(), trimmed_expr.as_str()),
        });
    }
    proof {
        let sl = suggestion_list(*r, *t);
        assert(suggestions_view(out@) =~= sl);
    }
    out
}

} // verus!
