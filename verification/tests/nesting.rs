use std::collections::HashMap;

use rcd_server::nesting::metrics::{
    bucket2, bucket3, first_highest_severity, severity_counts, RuleReport, Severity, Thresholds,
};
use rcd_server::nesting::rule_config::{analyze_rules, extract_variables, is_reserved, RuleSource};
use rcd_server::nesting::suggest::{expression_is_trivial, suggest};

fn rule(kks: &str, expr: &str) -> RuleSource {
    RuleSource { kks_calc: kks.into(), data_type: "float".into(), expression: expr.into() }
}

#[test]
fn depth_linear_chain() {
    let reports = analyze_rules(&vec![rule("A", "B + 1"), rule("B", "C * 2"), rule("C", "base + 1")]);
    let m: HashMap<_, _> = reports.iter().map(|r| (r.name.as_str(), r)).collect();
    assert_eq!(m["C"].max_chain_depth, 1);
    assert_eq!(m["B"].max_chain_depth, 2);
    assert_eq!(m["A"].max_chain_depth, 3);
    assert_eq!(m["A"].chain_example, vec!["A", "B", "C"]);
}

#[test]
fn extracts_base_vs_rule_deps() {
    let reports = analyze_rules(&vec![rule("A", "B + x"), rule("B", "y * 2")]);
    let a = reports.iter().find(|r| r.name == "A").unwrap();
    assert_eq!(a.rule_deps, vec!["B"]);
    assert_eq!(a.base_deps, vec!["x"]);
    assert!(a.direct_deps.contains(&"B".to_string()));
    assert!(a.direct_deps.contains(&"x".to_string()));
}

#[test]
fn self_reference_flagged() {
    let reports = analyze_rules(&vec![rule("C", "B + C")]);
    let c = &reports[0];
    assert!(c.is_self_ref);
}

#[test]
fn simple_cycle_detected() {
    let reports = analyze_rules(&vec![rule("A", "B + 1"), rule("B", "A + 1")]);
    assert!(reports.iter().all(|r| r.in_cycle));
}

#[test]
fn dependents_populated() {
    let reports = analyze_rules(&vec![rule("A", "B + 1"), rule("X", "B * 2"), rule("B", "base")]);
    let b = reports.iter().find(|r| r.name == "B").unwrap();
    assert!(b.dependents.contains(&"A".to_string()));
    assert!(b.dependents.contains(&"X".to_string()));
}

#[test]
fn reserved_words_ignored() {
    let reports = analyze_rules(&vec![rule("A", "x and true")]);
    let a = &reports[0];
    assert_eq!(a.direct_deps, vec!["x"]);
}

#[test]
fn cycle_members_and_their_readers() {
    // P -> Q -> R -> Q: Q and R are on the cycle, P only reads it.
    let reports = analyze_rules(&vec![rule("P", "Q"), rule("Q", "R + 1"), rule("R", "Q * 2"), rule("S", "P")]);
    let m: HashMap<_, _> = reports.iter().map(|r| (r.name.as_str(), r)).collect();
    assert!(!m["P"].in_cycle && m["Q"].in_cycle && m["R"].in_cycle && !m["S"].in_cycle);
    assert_eq!(m["Q"].max_chain_depth, 0);
    assert_eq!(m["Q"].chain_example, vec!["Q", "…[循环]"]);
    assert_eq!(m["P"].max_chain_depth, 1);
    assert_eq!(m["S"].chain_example, vec!["S", "P"]);
    // A rule whose first reference is cyclic follows the next deepest one.
    let reports = analyze_rules(&vec![rule("T", "A + B"), rule("A", "A2"), rule("A2", "A"), rule("B", "C"), rule("C", "x")]);
    assert_eq!(reports[0].chain_example, vec!["T", "B", "C"]);
    assert_eq!(reports[0].max_chain_depth, 3);
}

#[test]
fn identifiers_from_formulas() {
    assert_eq!(extract_variables("9CYE91GH201_SL1 + b_2 * a"), vec!["CYE91GH201_SL1", "a", "b_2"]);
    assert_eq!(extract_variables("not x or y"), vec!["x", "y"]);
    assert!(is_reserved("and") && !is_reserved("And"));
    assert_eq!(extract_variables("12e5+x1y_2-é_z*3"), vec!["_z", "e5", "x1y_2"]);
    assert!(extract_variables("3 + 4.5").is_empty());
}

fn report(name: &str, depth: usize, deps: usize) -> RuleReport {
    RuleReport {
        name: name.into(),
        expression: "a + b".into(),
        data_type: "float".into(),
        direct_deps: (0..deps).map(|i| format!("v{}", i)).collect(),
        rule_deps: vec![],
        base_deps: vec![],
        max_chain_depth: depth,
        chain_example: vec![name.into(), "B".into(), "C".into()],
        dependents: vec![],
        in_cycle: false,
        is_self_ref: false,
    }
}

#[test]
fn severity_grading() {
    let t = Thresholds::default();
    assert_eq!((t.depth_medium, t.depth_high, t.depth_critical, t.deps_medium, t.deps_high), (2, 3, 5, 4, 8));
    assert_eq!(t.classify(&report("A", 1, 1)), Severity::Okay);
    assert_eq!(t.classify(&report("A", 2, 1)), Severity::Medium);
    assert_eq!(t.classify(&report("A", 1, 8)), Severity::High);
    assert_eq!(t.classify(&report("A", 5, 9)), Severity::Critical);
    let mut r = report("A", 1, 1);
    r.in_cycle = true;
    assert_eq!(t.classify(&r), Severity::Critical);
    assert_eq!(bucket3(4, 2, 3, 5), Severity::High);
    assert_eq!(bucket2(3, 4, 8), Severity::Okay);
    assert_eq!(Severity::Okay.label(), "✅");
    assert_eq!(Severity::Critical.label(), "🔴");
    assert_eq!(Severity::High.color(), (230, 140, 60));
    assert!(Severity::Medium < Severity::High);
}

#[test]
fn grades_never_drop_as_reports_grow() {
    let limits = [
        Thresholds::default(),
        Thresholds { depth_medium: 5, depth_high: 2, depth_critical: 9, deps_medium: 6, deps_high: 1 },
    ];
    for t in &limits {
        let mut last = Severity::Okay;
        for n in 0..12 {
            let g = t.classify(&report("A", n, n));
            assert!(last <= g);
            last = g;
        }
    }
}

#[test]
fn severity_tally_and_first_worst() {
    let t = Thresholds::default();
    let rules = vec![
        report("A", 1, 1),
        report("B", 3, 1),
        report("C", 2, 1),
        report("D", 1, 9),
        report("E", 1, 0),
    ];
    assert_eq!(severity_counts(&t, &rules), (2, 1, 2, 0));
    assert_eq!(first_highest_severity(&t, &rules), Some(1));
    let mut worse = rules.clone();
    worse[4].in_cycle = true;
    assert_eq!(severity_counts(&t, &worse), (1, 1, 2, 1));
    assert_eq!(first_highest_severity(&t, &worse), Some(4));
    let calm = vec![report("A", 0, 0), report("B", 1, 3)];
    assert_eq!(severity_counts(&t, &calm), (2, 0, 0, 0));
    assert_eq!(first_highest_severity(&t, &calm), None);
    assert_eq!(first_highest_severity(&t, &vec![]), None);
}

#[test]
fn suggestions_for_reports() {
    let t = Thresholds::default();
    let mut r = report("A", 5, 8);
    let s = suggest(&r, &t);
    assert_eq!(s.len(), 2);
    assert_eq!(s[0].title, "引用链过深（深度 5，阈值 5）");
    assert!(s[0].detail.starts_with("最长链条：A → B → C。\n建议："));
    assert_eq!(s[1].title, "依赖变量过多（8 个，阈值 8）");
    assert!(s[1].detail.ends_with("依赖列表：v0, v1, v2, v3, v4, v5, v6, v7"));

    r = report("X", 1, 1);
    r.is_self_ref = true;
    r.expression = "X + 1".into();
    let s = suggest(&r, &t);
    assert_eq!(s[0].title, "表达式引用了自身");
    assert!(s[0].detail.starts_with("规则 `X = X + 1` 里出现了 `X` 自身，无法求值。\ncalc_engine"));

    r = report("U", 1, 1);
    r.dependents = vec!["T".into()];
    r.expression = "  a * 1000 ".into();
    let s = suggest(&r, &t);
    assert_eq!(s.len(), 1);
    assert_eq!(s[0].title, "可考虑内联到唯一调用处");
    assert!(s[0].detail.starts_with("规则 `U` 仅被 `T` 引用，且表达式较简单 (`a * 1000`)。"));
}

#[test]
fn trivial_expressions() {
    assert!(expression_is_trivial("a * 1000"));
    assert!(!expression_is_trivial("(a) * 2"));
    assert!(!expression_is_trivial("a + b + c + d"));
    assert!(!expression_is_trivial("aaaaaaaaaabbbbbbbbbbcccccccccc1"));
    assert!(expression_is_trivial("温度 * 2"));
}
