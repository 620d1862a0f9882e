//! Rule reports and their severity grading.

use vstd::prelude::*;

verus! {

/// Analysis of one rule.
#[derive(Debug, Clone)]
pub struct RuleReport {
    /// Output name (`kks_calc`).
    pub name: String,
    /// Formula text.
    pub expression: String,
    /// Output type label.
    pub data_type: String,
    /// Every variable the formula names, each once, sorted.
    pub direct_deps: Vec<String>,
    /// The direct dependencies that are outputs of other rules.
    pub rule_deps: Vec<String>,
    /// The direct dependencies that are no rule's output.
    pub base_deps: Vec<String>,
    /// Rules on the longest chain of rule references starting here,
    /// counting this rule.
    pub max_chain_depth: usize,
    /// Such a longest chain, from this rule down.
    pub chain_example: Vec<String>,
    /// The rules that read this rule's output.
    pub dependents: Vec<String>,
    /// Whether the rule lies on a cycle of references.
    pub in_cycle: bool,
    /// Whether the formula names the rule's own output.
    pub is_self_ref: bool,
}

/// Severity grades, from harmless to fatal.
#[derive(Debug, Clone, Copy, PartialEq, Eq, Hash, Structural, PartialOrd, Ord)]
pub enum Severity {
    Okay,
    Medium,
    High,
    Critical,
}

/// Position of a grade in the order `Okay < Medium < High < Critical`.
pub open spec fn rank(s: Severity) -> int {
    match s {
        Severity::Okay => 0,
        Severity::Medium => 1,
        Severity::High => 2,
        Severity::Critical => 3,
    }
}

impl Severity {
    /// Icon shown for the grade.
    pub open spec fn label_text(self) -> Seq<char> {
        match self {
            Severity::Okay => "✅"@,
            Severity::Medium => "🟡"@,
            Severity::High => "🟠"@,
            Severity::Critical => "🔴"@,
        }
    }

    pub fn label(self) -> (s: &'static str)
        ensures
            s@ == self.label_text(),
    {
        match self {
            Severity::Okay => "✅",
            Severity::Medium => "🟡",
            Severity::High => "🟠",
            Severity::Critical => "🔴",
        }
    }

    /// Display colour of the grade as red, green, blue.
    pub open spec fn rgb(self) -> (u8, u8, u8) {
        match self {
            Severity::Okay => (120, 180, 120),
            Severity::Medium => (230, 200, 80),
            Severity::High => (230, 140, 60),
            Severity::Critical => (220, 70, 70),
        }
    }

    pub fn color(self) -> (c: (u8, u8, u8))
        ensures
            c == self.rgb(),
    {
        match self {
            Severity::Okay => (120, 180, 120),
            Severity::Medium => (230, 200, 80),
            Severity::High => (230, 140, 60),
            Severity::Critical => (220, 70, 70),
        }
    }
}

/// The higher of two grades.
pub fn max_severity(a: Severity, b: Severity) -> (m: Severity)
    ensures
        rank(m) == (if rank(a) >= rank(b) {
            rank(a)
        } else {
            rank(b)
        }),
        m == a || m == b,
{
    let ra: u8 = match a {
        Severity::Okay => 0,
        Severity::Medium => 1,
        Severity::High => 2,
        Severity::Critical => 3,
    };
    let rb: u8 = match b {
        Severity::Okay => 0,
        Severity::Medium => 1,
        Severity::High => 2,
        Severity::Critical => 3,
    };
    if ra >= rb {
        a
    } else {
        b
    }
}

/// Grading limits.
#[derive(Debug, Clone)]
pub struct Thresholds {
    /// Chain depth from which a rule is `Medium`.
    pub depth_medium: usize,
    /// Chain depth from which a rule is `High`.
    pub depth_high: usize,
    /// Chain depth from which a rule is `Critical`.
    pub depth_critical: usize,
    /// Number of variables from which a rule is `Medium`.
    pub deps_medium: usize,
    /// Number of variables from which a rule is `High`.
    pub deps_high: usize,
}

impl Default for Thresholds {
    fn default() -> (t: Self)
        ensures
            t.depth_medium == 2,
            t.depth_high == 3,
            t.depth_critical == 5,
            t.deps_medium == 4,
            t.deps_high == 8,
    {
        Thresholds { depth_medium: 2, depth_high: 3, depth_critical: 5, deps_medium: 4, deps_high: 8 }
    }
}

/// Three-limit grading of `v`.
pub open spec fn bucket3_spec(v: int, m: int, h: int, c: int) -> Severity {
    if v >= c {
        Severity::Critical
    } else if v >= h {
        Severity::High
    } else if v >= m {
        Severity::Medium
    } else {
        Severity::Okay
    }
}

/// Two-limit grading of `v`.
pub open spec fn bucket2_spec(v: int, m: int, h: int) -> Severity {
    if v >= h {
        Severity::High
    } else if v >= m {
        Severity::Medium
    } else {
        Severity::Okay
    }
}

pub fn bucket3(v: usize, m: usize, h: usize, c: usize) -> (s: Severity)
    ensures
        s == bucket3_spec(v as int, m as int, h as int, c as int),
{
    if v >= c {
        Severity::Critical
    } else if v >= h {
        Severity::High
    } else if v >= m {
        Severity::Medium
    } else {
        Severity::Okay
    }
}

pub fn bucket2(v: usize, m: usize, h: usize) -> (s: Severity)
    ensures
        s == bucket2_spec(v as int, m as int, h as int),
{
    if v >= h {
        Severity::High
    } else if v >= m {
        Severity::Medium
    } else {
        Severity::Okay
    }
}

/// Grade of a report: a cycle or self-reference is `Critical`; otherwise
/// the higher of the depth grade and the dependency-count grade.
pub open spec fn classify_spec(t: Thresholds, in_cycle: bool, is_self_ref: bool, depth: int, deps: int) -> Severity {
    if in_cycle || is_self_ref {
        Severity::Critical
    } else {
        let a = bucket3_spec(depth, t.depth_medium as int, t.depth_high as int, t.depth_critical as int);
        let b = bucket2_spec(deps, t.deps_medium as int, t.deps_high as int);
        if rank(a) >= rank(b) {
            a
        } else {
            b
        }
    }
}

impl Thresholds {
    /// Grades a report.
    pub fn classify(&self, r: &RuleReport) -> (s: Severity)
        ensures
            s == classify_spec(*self, r.in_cycle, r.is_self_ref, r.max_chain_depth as int, r.direct_deps.len() as int),
    {
        if r.in_cycle || r.is_self_ref {
            return Severity::Critical;
        }
        let depth_sev = bucket3(r.max_chain_depth, self.depth_medium, self.depth_high, self.depth_critical);
        let deps_sev = bucket2(r.direct_deps.len(), self.deps_medium, self.deps_high);
        max_severity(depth_sev, deps_sev)
    }
}

/// Grading never goes down when a report gets deeper or wider: more depth
/// and more variables give at least the same grade, whatever the limits.
pub proof fn law_classify_monotone(t: Thresholds, c: bool, s: bool, d1: int, d2: int, n1: int, n2: int)
    requires
        d1 <= d2,
        n1 <= n2,
    ensures
        rank(classify_spec(t, c, s, d1, n1)) <= rank(classify_spec(t, c, s, d2, n2)),
{
}


/// Grade of one report under `t`.
pub open spec fn grade_of(t: Thresholds, r: RuleReport) -> Severity {
    classify_spec(t, r.in_cycle, r.is_self_ref, r.max_chain_depth as int, r.direct_deps.len() as int)
}

/// How many of the first `n` reports get grade `g`.
pub open spec fn count_graded(t: Thresholds, rules: Seq<RuleReport>, g: Severity, n: int) -> int
    decreases n,
{
    if n <= 0 {
        0
    } else {
        count_graded(t, rules, g, n - 1) + (if grade_of(t, rules[n - 1]) == g {
            1int
        } else {
            0int
        })
    }
}

proof fn lemma_count_graded_bound(t: Thresholds, rules: Seq<RuleReport>, g: Severity, n: int)
    requires
        0 <= n,
    ensures
        0 <= count_graded(t, rules, g, n) <= n,
    decreases n,
{
    if n > 0 {
        lemma_count_graded_bound(t, rules, g, n - 1);
    }
}

/// Number form of a grade.
fn rank_of(s: Severity) -> (r: u8)
    ensures
        r == rank(s),
{
    match s {
        Severity::Okay => 0,
        Severity::Medium => 1,
        Severity::High => 2,
        Severity::Critical => 3,
    }
}

/// How many reports get each grade: `Okay`, `Medium`, `High`, `Critical`.
pub fn severity_counts(t: &Thresholds, rules: &Vec<RuleReport>) -> (c: (usize, usize, usize, usize))
    ensures
        c.0 == count_graded(*t, rules@, Severity::Okay, rules.len() as int),
        c.1 == count_graded(*t, rules@, Severity::Medium, rules.len() as int),
        c.2 == count_graded(*t, rules@, Severity::High, rules.len() as int),
        c.3 == count_graded(*t, rules@, Severity::Critical, rules.len() as int),
{
    let mut ok: usize = 0;
    let mut med: usize = 0;
    let mut high: usize = 0;
    let mut crit: usize = 0;
    let mut i: usize = 0;
    while i < rules.len()
        invariant
            0 <= i <= rules.len(),
            ok == count_graded(*t, rules@, Severity::Okay, i as int),
            med == count_graded(*t, rules@, Severity::Medium, i as int),
            high == count_graded(*t, rules@, Severity::High, i as int),
            crit == count_graded(*t, rules@, Severity::Critical, i as int),
        decreases rules.len() - i,
    {
        proof {
            lemma_count_graded_bound(*t, rules@, Severity::Okay, i as int);
            lemma_count_graded_bound(*t, rules@, Severity::Medium, i as int);
            lemma_count_graded_bound(*t, rules@, Severity::High, i as int);
            lemma_count_graded_bound(*t, rules@, Severity::Critical, i as int);
        }
        match t.classify(&rules[i]) {
            Severity::Okay => ok = ok + 1,
            Severity::Medium => med = med + 1,
            Severity::High => high = high + 1,
            Severity::Critical => crit = crit + 1,
        }
        i = i + 1;
    }
    (ok, med, high, crit)
}

/// The first report with the highest grade above `Okay`; `None` when every
/// report is `Okay`.
pub fn first_highest_severity(t: &Thresholds, rules: &Vec<RuleReport>) -> (r: Option<usize>)
    ensures
        r is None <==> forall|j: int| 0 <= j < rules.len() ==> grade_of(*t, #[trigger] rules@[j]) == Severity::Okay,
        r matches Some(i) ==> {
            &&& i < rules.len()
            &&& grade_of(*t, rules@[i as int]) != Severity::Okay
            &&& forall|j: int| 0 <= j < rules.len() ==> rank(grade_of(*t, #[trigger] rules@[j])) <= rank(
                grade_of(*t, rules@[i as int]),
            )
            &&& forall|j: int| 0 <= j < i ==> rank(grade_of(*t, #[trigger] rules@[j])) < rank(
                grade_of(*t, rules@[i as int]),
            )
        },
{
    let mut best: Option<usize> = None;
    let mut best_rank: u8 = 0;
    let mut i: usize = 0;
    while i < rules.len()
        invariant
            0 <= i <= rules.len(),
            best is None ==> best_rank == 0,
            best is None <==> forall|j: int| 0 <= j < i ==> grade_of(*t, #[trigger] rules@[j]) == Severity::Okay,
            best matches Some(b) ==> {
                &&& b < i
                &&& best_rank == rank(grade_of(*t, rules@[b as int]))
                &&& best_rank > 0
                &&& forall|j: int| 0 <= j < i ==> rank(grade_of(*t, #[trigger] rules@[j])) <= best_rank
                &&& forall|j: int| 0 <= j < b ==> rank(grade_of(*t, #[trigger] rules@[j])) < best_rank
            },
        decreases rules.len() - i,
    {
        let s = t.classify(&rules[i]);
        let sr = rank_of(s);
        assert(s == grade_of(*t, rules@[i as int]));
        if sr > 0 && (best.is_none() || sr > best_rank) {
            best = Some(i);
            best_rank = sr;
        }
        i = i + 1;
    }
    best
}


/// A rule that refers to itself, or lies on a cycle, is graded `Critical`
/// whatever its depth, its number of variables and the limits; and a
/// `Critical` grade for a rule without those comes only from depth.
pub proof fn law_fatal_rules_are_critical(t: Thresholds, r: RuleReport)
    ensures
        r.is_self_ref ==> grade_of(t, r) == Severity::Critical,
        r.in_cycle ==> grade_of(t, r) == Severity::Critical,
        !r.is_self_ref && !r.in_cycle && grade_of(t, r) == Severity::Critical
            ==> r.max_chain_depth >= t.depth_critical,
{
}

} // verus!
