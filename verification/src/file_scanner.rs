//! Selection of configuration files by a file-name pattern.

use vstd::prelude::*;

use crate::text::{push_str, string_from_chars, strings_view};

verus! {

/// Name for the text of the error that the `regex` crate reports when
/// `pattern` does not compile, or `None` when it compiles.
pub uninterp spec fn regex_compile_error(pattern: Seq<char>) -> Option<Seq<char>>;

/// Name for what the `regex` crate answers on whether `pattern` matches
/// somewhere in `text`, or `None` when the pattern does not compile.
pub uninterp spec fn regex_accepts(pattern: Seq<char>, text: Seq<char>) -> Option<bool>;

/// Whether `pattern` compiles (`regex::Regex::new`), and if not, the
/// error's text (its `Display`).
///
/// Trusted: the outcome is tied to the pattern through
/// `regex_compile_error`; which patterns compile, and the error's wording,
/// are left to the `regex` crate.
#[verifier::external_body]
fn regex_check(pattern: &str) -> (r: Option<String>)
    ensures
        match regex_compile_error(pattern@) {
            None => r is None,
            Some(t) => r matches Some(s) && s@ == t,
        },
{
    match regex::Regex::new(pattern) {
        Ok(_) => None,
        Err(e) => Some(e.to_string()),
    }
}

/// Whether `pattern` matches `text` (`regex::Regex::new`, then
/// `Regex::is_match`).
///
/// Trusted: the outcome is tied to the pattern and the text through
/// `regex_accepts`; what matches is left to the `regex` crate. It is `None`
/// exactly when `Regex::new` fails on the pattern, which is when
/// `regex_check` reports an error.
#[verifier::external_body]
fn regex_is_match(pattern: &str, text: &str) -> (r: Option<bool>)
    ensures
        r == regex_accepts(pattern@, text@),
        r is None <==> regex_compile_error(pattern@) is Some,
{
    match regex::Regex::new(pattern) {
        Ok(re) => Some(re.is_match(text)),
        Err(_) => None,
    }
}

/// Message for a file-name pattern that does not compile.
pub open spec fn bad_pattern_text(error: Seq<char>) -> Seq<char> {
    "无效的正则表达式: "@ + error
}

/// The error for a file-name pattern that does not compile, or `None` when
/// it compiles.
pub fn pattern_error(pattern: &str) -> (r: Option<String>)
    ensures
        match regex_compile_error(pattern@) {
            None => r is None,
            Some(t) => r matches Some(m) && m@ == bad_pattern_text(t),
        },
{
    match regex_check(pattern) {
        None => None,
        Some(e) => {
            let mut out: Vec<char> = Vec::new();
            push_str(&mut out, "无效的正则表达式: ");
            push_str(&mut out, e.as_str());
            proof {
                reveal_strlit("无效的正则表达式: ");
            }
            Some(string_from_chars(out.as_slice()))
        },
    }
}

/// Positions of the names that `pattern` matches, in increasing order;
/// the error of [`pattern_error`] when the pattern does not compile.
pub fn select_matching(pattern: &str, names: &Vec<String>) -> (res: Result<Vec<usize>, String>)
    ensures
        match regex_compile_error(pattern@) {
            Some(t) => res matches Err(m) && m@ == bad_pattern_text(t),
            None => res matches Ok(r) && {
                &&& forall|k: int| 0 <= k < r.len() ==> (#[trigger] r@[k]) < names.len()
                &&& forall|a: int, b: int| 0 <= a < b < r.len() ==> r@[a] < r@[b]
                &&& forall|i: int| 0 <= i < names.len() ==> (r@.contains(i as usize) <==> regex_accepts(
                    pattern@,
                    #[trigger] strings_view(names@)[i],
                ) == Some(true))
            },
        },
{
    if let Some(m) = pattern_error(pattern) {
        return Err(m);
    }
    let mut r: Vec<usize> = Vec::new();
    let mut i: usize = 0;
    while i < names.len()
        invariant
            0 <= i <= names.len(),
            forall|k: int| 0 <= k < r.len() ==> (#[trigger] r@[k]) < i,
            forall|a: int, b: int| 0 <= a < b < r.len() ==> r@[a] < r@[b],
            forall|j: int| 0 <= j < i ==> (r@.contains(j as usize) <==> regex_accepts(
                pattern@,
                #[trigger] strings_view(names@)[j],
            ) == Some(true)),
        decreases names.len() - i,
    {
        let ghost before = r@;
        let hit = regex_is_match(pattern, names[i].as_str());
        assert(strings_view(names@)[i as int] == names@[i as int]@);
        if hit == Some(true) {
            r.push(i);
        }
        assert forall|j: int| 0 <= j < i + 1 implies (r@.contains(j as usize) <==> regex_accepts(
            pattern@,
            #[trigger] strings_view(names@)[j],
        ) == Some(true)) by {
            if r@.contains(j as usize) && j < i {
                let k = choose|k: int| 0 <= k < r.len() && r@[k] == j as usize;
                if hit == Some(true) && k == r.len() - 1 {
                } else {
                    assert(before[k] == j as usize);
                }
            }
            if j < i && before.contains(j as usize) {
                let k = choose|k: int| 0 <= k < before.len() && before[k] == j as usize;
                assert(r@[k] == j as usize);
            }
            if j == i {
                if hit == Some(true) {
                    assert(r@[r.len() - 1] == i);
                } else {
                    if r@.contains(j as usize) {
                        let k = choose|k: int| 0 <= k < r.len() && r@[k] == j as usize;
                        assert(before[k] < i);
                    }
                }
            }
        }
        i = i + 1;
    }
    Ok(r)
}

} // verus!
