//! Review of formula rules: dependency depth, fan-in, cycles and
//! self-references, graded by severity with rewrite suggestions.

pub mod metrics;
pub mod rule_config;
pub mod suggest;
