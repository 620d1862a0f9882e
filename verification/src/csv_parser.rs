//! Device configuration files: header fields and data-point records.

use std::ops::RangeInclusive;

use vstd::prelude::*;

use crate::numtext::{
    int_error_message, int_error_text, parse_bool_chars, parse_uint_chars, parse_uint_spec, trim_chars, trimmed,
    IntErrorKind,
};
use crate::text::{chars_of, push_decimal, push_str, decimal, string_from_chars};

verus! {

/// Bounds of an inclusive range (std `RangeInclusive::start`).
///
/// Trusted: std documents that `start` returns the lower bound the range
/// was built with.
pub assume_specification<Idx>[ RangeInclusive::<Idx>::start ](r: &RangeInclusive<Idx>) -> (s: &Idx)
    ensures
        *s == r@.start,
;

/// Upper bound of an inclusive range (std `RangeInclusive::end`).
///
/// Trusted: std documents that `end` returns the upper bound the range
/// was built with.
pub assume_specification<Idx>[ RangeInclusive::<Idx>::end ](r: &RangeInclusive<Idx>) -> (s: &Idx)
    ensures
        *s == r@.end,
;

/// Copy of an inclusive range (std `RangeInclusive: Clone`, derived).
///
/// Trusted, with nothing promised of the copy: the derived impl clones
/// each bound with `Idx::clone`, which in general need not return an equal
/// value. It is declared so that `BitIndex` can derive `Clone`.
pub assume_specification<Idx: Clone>[ <RangeInclusive<Idx> as Clone>::clone ](r: &RangeInclusive<Idx>) -> (c: RangeInclusive<Idx>);

/// Position of a data point inside its byte: one bit, or a run of bits.
#[derive(Debug, Clone)]
pub enum BitIndex {
    /// A single bit (0 = least significant).
    Single(u32),
    /// An inclusive run of bits, counted from the point's first byte.
    Range(RangeInclusive<u32>),
}

/// One data-point row of a device file.
#[derive(Debug, Clone)]
pub struct Record {
    /// KKS identifier (prefix already applied).
    pub kks: String,
    /// Value type: `"uint"`, `"bool"` or `"float"`.
    pub type_: String,
    /// Function type (reserved).
    pub _f_type: String,
    /// 1-based byte offset in the status block.
    pub byte_index: u32,
    /// Bit position.
    pub bit_index: BitIndex,
    /// Default value (reserved).
    pub _def: u32,
    /// Maximum (reserved).
    pub _max: u32,
    /// Minimum (reserved).
    pub _min: u32,
    /// Byte order of multi-byte runs: `1` big-endian, otherwise little-endian.
    pub byte_order: u32,
}


// ------------------------------------------------------------------
//  Bit positions
// ------------------------------------------------------------------

/// Model of a [`BitIndex`].
pub enum BitIndexView {
    Single(u32),
    Range(u32, u32),
}

impl BitIndex {
    pub open spec fn view(&self) -> BitIndexView {
        match self {
            BitIndex::Single(b) => BitIndexView::Single(*b),
            BitIndex::Range(r) => BitIndexView::Range(r@.start, r@.end),
        }
    }
}

/// Index of the first `.` in `s`.
pub open spec fn first_dot(s: Seq<char>) -> Option<int> {
    if exists|i: int| 0 <= i < s.len() && s[i] == '.' {
        Some(choose|i: int| 0 <= i < s.len() && s[i] == '.' && forall|j: int| 0 <= j < i ==> s[j] != '.')
    } else {
        None
    }
}

/// Reading of a bit position: `"n"` is bit `n`, `"a.b"` the bits `a` to `b`
/// (split at the first dot).
pub open spec fn bit_index_spec(s: Seq<char>) -> Result<BitIndexView, IntErrorKind> {
    match first_dot(s) {
        Some(p) => match parse_uint_spec(s.take(p), u32::MAX as nat) {
            Err(k) => Err(k),
            Ok(a) => match parse_uint_spec(s.skip(p + 1), u32::MAX as nat) {
                Err(k) => Err(k),
                Ok(b) => Ok(BitIndexView::Range(a as u32, b as u32)),
            },
        },
        None => match parse_uint_spec(s, u32::MAX as nat) {
            Err(k) => Err(k),
            Ok(a) => Ok(BitIndexView::Single(a as u32)),
        },
    }
}

/// Reads a bit position; the error is std's text for the failed number.
pub fn parse_bit_index(s: &str) -> (r: Result<BitIndex, String>)
    ensures
        match bit_index_spec(s@) {
            Ok(v) => r matches Ok(x) && x.view() == v,
            Err(k) => r matches Err(m) && m@ == int_error_text(k),
        },
{
    let cs = chars_of(s);
    let n = cs.len();
    let mut p: usize = 0;
    while p < n && cs[p] != '.'
        invariant
            0 <= p <= n,
            n == cs.len(),
            forall|j: int| 0 <= j < p ==> cs@[j] != '.',
        decreases n - p,
    {
        p = p + 1;
    }
    if p < n {
        proof {
            assert(cs@ == s@);
            assert(exists|i: int| 0 <= i < s@.len() && s@[i] == '.') by {
                assert(s@[p as int] == '.');
            }
            let q = choose|i: int| 0 <= i < s@.len() && s@[i] == '.' && forall|j: int| 0 <= j < i ==> s@[j] != '.';
            assert(first_dot(s@) == Some(q));
            if q < p {
                assert(cs@[q] != '.');
            }
            if q > p {
                assert(s@[p as int] != '.');
            }
            assert(first_dot(s@) == Some(p as int));
        }
        let mut head: Vec<char> = Vec::new();
        let mut i: usize = 0;
        while i < p
            invariant
                0 <= i <= p,
                p < n,
                n == cs.len(),
                head@ == cs@.take(i as int),
            decreases p - i,
        {
            head.push(cs[i]);
            i = i + 1;
            assert(head@ =~= cs@.take(i as int));
        }
        let mut tail: Vec<char> = Vec::new();
        let mut k: usize = p + 1;
        while k < n
            invariant
                p + 1 <= k <= n,
                n == cs.len(),
                tail@ == cs@.subrange(p + 1, k as int),
            decreases n - k,
        {
            tail.push(cs[k]);
            k = k + 1;
            assert(tail@ =~= cs@.subrange(p + 1, k as int));
        }
        assert(tail@ =~= cs@.skip(p + 1));
        let a = match parse_uint_chars(head.as_slice(), 0xFFFF_FFFFu32) {
            Ok(v) => v,
            Err(e) => return Err(int_error_message(e)),
        };
        let b = match parse_uint_chars(tail.as_slice(), 0xFFFF_FFFFu32) {
            Ok(v) => v,
            Err(e) => return Err(int_error_message(e)),
        };
        Ok(BitIndex::Range(a..=b))
    } else {
        proof {
            assert(cs@ == s@);
            if exists|i: int| 0 <= i < s@.len() && s@[i] == '.' {
                let q = choose|i: int| 0 <= i < s@.len() && s@[i] == '.';
                assert(cs@[q] != '.');
            }
        }
        match parse_uint_chars(cs.as_slice(), 0xFFFF_FFFFu32) {
            Ok(v) => Ok(BitIndex::Single(v)),
            Err(e) => Err(int_error_message(e)),
        }
    }
}

impl std::str::FromStr for BitIndex {
    type Err = String;

    fn from_str(s: &str) -> (r: Result<Self, Self::Err>)
        ensures
            match bit_index_spec(s@) {
                Ok(v) => r matches Ok(x) && x.view() == v,
                Err(k) => r matches Err(m) && m@ == int_error_text(k),
            },
    {
        parse_bit_index(s)
    }
}

// ------------------------------------------------------------------
//  Header block
// ------------------------------------------------------------------

/// A malformed header block.
#[derive(Debug)]
pub enum CsvParseError {
    /// A required field is missing or blank (`row` is 1-based).
    MissingHeader { field: &'static str, row: usize },
    /// A required field is not a number of the expected range.
    BadHeaderValue { field: &'static str, value: String, reason: String },
}

/// Model of a [`CsvParseError`].
pub enum CsvParseErrorView {
    MissingHeader(Seq<char>, nat),
    BadHeaderValue(Seq<char>, Seq<char>, Seq<char>),
}

impl CsvParseError {
    pub open spec fn view(&self) -> CsvParseErrorView {
        match self {
            CsvParseError::MissingHeader { field, row } => CsvParseErrorView::MissingHeader(field@, *row as nat),
            CsvParseError::BadHeaderValue { field, value, reason } => CsvParseErrorView::BadHeaderValue(
                field@,
                value@,
                reason@,
            ),
        }
    }

    /// The text shown for the error.
    pub fn message(&self) -> (s: String)
        ensures
            s@ == csv_error_text(self.view()),
    {
        let mut out: Vec<char> = Vec::new();
        match self {
            CsvParseError::MissingHeader { field, row } => {
                push_str(&mut out, "CSV 头缺少必填字段 '");
                push_str(&mut out, field);
                push_str(&mut out, "' (第 ");
                push_decimal(&mut out, *row as u64);
                push_str(&mut out, " 行第 2 列)");
            },
            CsvParseError::BadHeaderValue { field, value, reason } => {
                push_str(&mut out, "CSV 头字段 '");
                push_str(&mut out, field);
                push_str(&mut out, "' 解析失败 (值=\"");
                push_str(&mut out, value.as_str());
                push_str(&mut out, "\"): ");
                push_str(&mut out, reason.as_str());
            },
        }
        string_from_chars(out.as_slice())
    }
}

/// The text shown for a header error.
pub open spec fn csv_error_text(e: CsvParseErrorView) -> Seq<char> {
    match e {
        CsvParseErrorView::MissingHeader(f, row) => "CSV 头缺少必填字段 '"@ + f + "' (第 "@ + decimal(row)
            + " 行第 2 列)"@,
        CsvParseErrorView::BadHeaderValue(f, v, why) => "CSV 头字段 '"@ + f + "' 解析失败 (值=\""@ + v + "\"): "@
            + why,
    }
}

/// Header value `idx`, trimmed; empty when absent.
pub open spec fn header_at(h: Seq<Seq<char>>, idx: int) -> Seq<char> {
    if 0 <= idx < h.len() {
        trimmed(h[idx])
    } else {
        Seq::empty()
    }
}

/// Reading of the required numeric header `idx`.
pub open spec fn required_spec(h: Seq<Seq<char>>, idx: int, field: Seq<char>, max: nat) -> Result<nat, CsvParseErrorView> {
    if header_at(h, idx).len() == 0 {
        Err(CsvParseErrorView::MissingHeader(field, (idx + 1) as nat))
    } else {
        match parse_uint_spec(header_at(h, idx), max) {
            Ok(v) => Ok(v),
            Err(k) => Err(CsvParseErrorView::BadHeaderValue(field, header_at(h, idx), int_error_text(k))),
        }
    }
}

/// The trimmed characters of header `idx`; empty when absent.
fn header_chars(headers: &Vec<String>, idx: usize) -> (v: Vec<char>)
    ensures
        v@ == header_at(crate::text::strings_view(headers@), idx as int),
{
    if idx < headers.len() {
        trim_chars(headers[idx].as_str())
    } else {
        Vec::new()
    }
}

/// Reads the required numeric header `idx` (no larger than `max`).
pub fn parse_required(headers: &Vec<String>, idx: usize, field: &'static str, max: u32) -> (r: Result<u32, CsvParseError>)
    requires
        idx < usize::MAX,
    ensures
        match required_spec(crate::text::strings_view(headers@), idx as int, field@, max as nat) {
            Ok(v) => r matches Ok(x) && x == v,
            Err(e) => r matches Err(x) && x.view() == e,
        },
        r matches Ok(x) ==> x <= max,
{
    let raw = header_chars(headers, idx);
    if raw.len() == 0 {
        return Err(CsvParseError::MissingHeader { field, row: idx + 1 });
    }
    match parse_uint_chars(raw.as_slice(), max) {
        Ok(v) => Ok(v),
        Err(k) => Err(CsvParseError::BadHeaderValue {
            field,
            value: string_from_chars(raw.as_slice()),
            reason: int_error_message(k),
        }),
    }
}

/// Communication settings of a device, from the header block.
#[derive(Debug, Clone)]
pub struct Config {
    /// Serial port, e.g. `"COM3"`.
    pub com: String,
    pub baud_rate: u32,
    /// Whether the port uses mark/space parity framing.
    pub is_special: bool,
    /// Index of the port.
    pub com_index: u8,
    /// Station address of the device.
    pub device_id: u8,
    /// Length of the status block the device answers with.
    pub data_len: u8,
    /// Prefix applied to every data point's KKS.
    pub kks_prefix: String,
}

/// What the header block reads as, when it is well formed.
pub open spec fn config_matches(c: Config, h: Seq<Seq<char>>, baud: nat, index: nat, device: nat, len: nat) -> bool {
    &&& c.com@ == header_at(h, 0)
    &&& c.baud_rate == baud
    &&& c.is_special == (header_at(h, 2) == "true"@)
    &&& c.com_index == index
    &&& c.device_id == device
    &&& c.data_len == len
    &&& c.kks_prefix@ == (if h.len() > 6 {
        h[6]
    } else {
        Seq::<char>::empty()
    })
}

/// Reads the header block (the value column of the first seven rows):
/// port, baud rate, special flag, port index, device address, data
/// length and KKS prefix. Port, baud rate, port index, device address and
/// data length are required, and checked in that order; the special flag
/// is `true` only when it reads `true`; the prefix is taken as it is.
pub fn config_from_headers(headers: &Vec<String>) -> (r: Result<Config, CsvParseError>)
    ensures
        ({
            let h = crate::text::strings_view(headers@);
            if header_at(h, 0).len() == 0 {
                r matches Err(e) && e.view() == CsvParseErrorView::MissingHeader("com"@, 1)
            } else {
                match required_spec(h, 1, "baud_rate"@, u32::MAX as nat) {
                    Err(e) => r matches Err(x) && x.view() == e,
                    Ok(baud) => match required_spec(h, 3, "com_index"@, 255) {
                        Err(e) => r matches Err(x) && x.view() == e,
                        Ok(index) => match required_spec(h, 4, "device_id"@, 255) {
                            Err(e) => r matches Err(x) && x.view() == e,
                            Ok(device) => match required_spec(h, 5, "data_len"@, 255) {
                                Err(e) => r matches Err(x) && x.view() == e,
                                Ok(len) => r matches Ok(c) && config_matches(c, h, baud, index, device, len),
                            },
                        },
                    },
                }
            }
        }),
{
    let com = header_chars(headers, 0);
    if com.len() == 0 {
        return Err(CsvParseError::MissingHeader { field: "com", row: 1 });
    }
    let baud_rate = match parse_required(headers, 1, "baud_rate", 0xFFFF_FFFFu32) {
        Ok(v) => v,
        Err(e) => return Err(e),
    };
    let special = header_chars(headers, 2);
    let is_special = match parse_bool_chars(special.as_slice()) {
        Some(b) => b,
        None => false,
    };
    let com_index = match parse_required(headers, 3, "com_index", 255) {
        Ok(v) => v as u8,
        Err(e) => return Err(e),
    };
    let device_id = match parse_required(headers, 4, "device_id", 255) {
        Ok(v) => v as u8,
        Err(e) => return Err(e),
    };
    let data_len = match parse_required(headers, 5, "data_len", 255) {
        Ok(v) => v as u8,
        Err(e) => return Err(e),
    };
    let kks_prefix = if headers.len() > 6 {
        let cs = chars_of(headers[6].as_str());
        string_from_chars(cs.as_slice())
    } else {
        String::new()
    };
    Ok(Config {
        com: string_from_chars(com.as_slice()),
        baud_rate,
        is_special,
        com_index,
        device_id,
        data_len,
        kks_prefix,
    })
}

/// A device: its communication settings and its data points.
#[derive(Debug, Clone)]
pub struct DeviceConfig {
    pub config: Config,
    pub records: Vec<Record>,
}

impl DeviceConfig {
    pub fn new(config: Config, records: Vec<Record>) -> (d: Self)
        ensures
            d.config == config,
            d.records == records,
    {
        DeviceConfig { config, records }
    }
}

/// `b` is `a` with `prefix` put in front of its KKS.
pub open spec fn prefixed(a: Record, b: Record, prefix: Seq<char>) -> bool {
    &&& b.kks@ == prefix + a.kks@
    &&& b.type_ == a.type_
    &&& b._f_type == a._f_type
    &&& b.byte_index == a.byte_index
    &&& b.bit_index == a.bit_index
    &&& b._def == a._def
    &&& b._max == a._max
    &&& b._min == a._min
    &&& b.byte_order == a.byte_order
}

/// Puts the device's KKS prefix in front of every data point's KKS.
pub fn apply_kks_prefix(prefix: &str, records: Vec<Record>) -> (r: Vec<Record>)
    ensures
        r.len() == records.len(),
        forall|i: int| 0 <= i < r.len() ==> prefixed(#[trigger] records@[i], r@[i], prefix@),
{
    let ghost orig = records@;
    let mut rest = records;
    let mut out: Vec<Record> = Vec::new();
    while rest.len() > 0
        invariant
            out.len() + rest.len() == orig.len(),
            rest@ == orig.skip(out.len() as int),
            forall|i: int| 0 <= i < out.len() ==> prefixed(#[trigger] orig[i], out@[i], prefix@),
        decreases rest.len(),
    {
        let rec = rest.remove(0);
        assert(rec == orig[out.len() as int]);
        let mut name: Vec<char> = Vec::new();
        push_str(&mut name, prefix);
        push_str(&mut name, rec.kks.as_str());
        let kks = string_from_chars(name.as_slice());
        let next = Record {
            kks,
            type_: rec.type_,
            _f_type: rec._f_type,
            byte_index: rec.byte_index,
            bit_index: rec.bit_index,
            _def: rec._def,
            _max: rec._max,
            _min: rec._min,
            byte_order: rec.byte_order,
        };
        let ghost before = out@;
        out.push(next);
        assert(rest@ =~= orig.skip(out.len() as int));
        assert forall|i: int| 0 <= i < out.len() implies prefixed(#[trigger] orig[i], out@[i], prefix@) by {
            if i < before.len() {
                assert(out@[i] == before[i]);
            }
        }
    }
    out
}

} // verus!
