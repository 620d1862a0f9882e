//! Output types of formula rules.

use vstd::prelude::*;

use crate::text::{chars_eq_ignore_case, chars_of, eq_ignore_case, upper};

verus! {

/// Type of a rule's output.
#[derive(Debug, Clone, Copy, PartialEq, Eq, Structural)]
pub enum CalcDataType {
    /// Unsigned 32-bit integer.
    UInt,
    Bool,
    /// Single precision.
    Float,
    /// Double precision.
    Double,
}

/// The type a data-type name stands for: `uint`/`u32`/`uint32`,
/// `bool`/`boolean`, `float`/`f32`, `double`/`f64`, in any ASCII case.
pub open spec fn data_type_of(s: Seq<char>) -> Option<CalcDataType> {
    if eq_ignore_case(s, "uint"@) || eq_ignore_case(s, "u32"@) || eq_ignore_case(s, "uint32"@) {
        Some(CalcDataType::UInt)
    } else if eq_ignore_case(s, "bool"@) || eq_ignore_case(s, "boolean"@) {
        Some(CalcDataType::Bool)
    } else if eq_ignore_case(s, "float"@) || eq_ignore_case(s, "f32"@) {
        Some(CalcDataType::Float)
    } else if eq_ignore_case(s, "double"@) || eq_ignore_case(s, "f64"@) {
        Some(CalcDataType::Double)
    } else {
        None
    }
}

/// Reads a data-type name; `None` for a name that is not one of the
/// accepted ones.
pub fn normalize_data_type(s: &str) -> (r: Option<CalcDataType>)
    ensures
        r == data_type_of(s@),
{
    let cs = chars_of(s);
    let c = cs.as_slice();
    if chars_eq_ignore_case(c, "uint") || chars_eq_ignore_case(c, "u32") || chars_eq_ignore_case(c, "uint32") {
        Some(CalcDataType::UInt)
    } else if chars_eq_ignore_case(c, "bool") || chars_eq_ignore_case(c, "boolean") {
        Some(CalcDataType::Bool)
    } else if chars_eq_ignore_case(c, "float") || chars_eq_ignore_case(c, "f32") {
        Some(CalcDataType::Float)
    } else if chars_eq_ignore_case(c, "double") || chars_eq_ignore_case(c, "f64") {
        Some(CalcDataType::Double)
    } else {
        None
    }
}

impl CalcDataType {
    /// Canonical name of the type.
    pub open spec fn name(self) -> Seq<char> {
        match self {
            CalcDataType::UInt => "uint"@,
            CalcDataType::Bool => "bool"@,
            CalcDataType::Float => "float"@,
            CalcDataType::Double => "double"@,
        }
    }

    /// Canonical name of the type.
    pub fn as_str(&self) -> (s: &'static str)
        ensures
            s@ == self.name(),
    {
        match self {
            CalcDataType::UInt => "uint",
            CalcDataType::Bool => "bool",
            CalcDataType::Float => "float",
            CalcDataType::Double => "double",
        }
    }
}

/// Every canonical name reads back as its own type.
pub proof fn law_name_round_trip(t: CalcDataType)
    ensures
        data_type_of(t.name()) == Some(t),
{
    reveal_strlit("uint");
    reveal_strlit("bool");
    reveal_strlit("float");
    reveal_strlit("double");
    reveal_strlit("u32");
    reveal_strlit("uint32");
    reveal_strlit("boolean");
    reveal_strlit("f32");
    reveal_strlit("f64");
    let n = t.name();
    assert(eq_ignore_case(n, n));
    match t {
        CalcDataType::UInt => {},
        CalcDataType::Bool => {
            assert(upper(n[0]) != upper("uint"@[0]));
        },
        CalcDataType::Float => {},
        CalcDataType::Double => {
            assert(upper(n[0]) != upper("uint32"@[0]));
        },
    }
}

} // verus!
