//! Serial frame protocol: checksums, response frames and status decoding.

pub mod cmd;
pub mod threshold;

use vstd::arithmetic::power2::{lemma2_to64, lemma_pow2_adds, lemma_pow2_pos, lemma_pow2_strictly_increases, lemma_pow2_unfold, pow2};
use vstd::prelude::*;
use vstd::string::StringSliceAdditionalSpecFns;

use crate::csv_parser::{BitIndex, Record};
use crate::model::{byte_sum, get_sum, Value};
use crate::text::str_eq;

verus! {

// ------------------------------------------------------------------
//  Response frames
// ------------------------------------------------------------------

/// A parsed response frame `[Addr][CMD][Len][Status...][CRC]`.
#[derive(Debug, Clone)]
pub struct DataPacket {
    pub addr: u8,
    pub cmd: u8,
    pub len: u8,
    pub status: Vec<u8>,
    pub crc: u8,
}

impl DataPacket {
    /// Builds a packet from its fields.
    pub fn new(addr: u8, cmd: u8, len: u8, status: Vec<u8>, crc: u8) -> (p: Self)
        ensures
            p.addr == addr,
            p.cmd == cmd,
            p.len == len,
            p.status@ == status@,
            p.crc == crc,
    {
        DataPacket { addr, cmd, len, status, crc }
    }
}

/// Whether the last byte of `data` is the wrapping sum of the others.
pub open spec fn checksum_ok(data: Seq<u8>) -> bool {
    data.len() > 0 && byte_sum(data.drop_last()) == data.last()
}

/// Additive checksum check: the last byte must equal the wrapping sum of
/// all preceding bytes. An empty frame never passes.
pub fn verify_checksum(data: &[u8]) -> (ok: bool)
    ensures
        ok == checksum_ok(data@),
{
    if data.len() == 0 {
        return false;
    }
    let n = data.len() - 1;
    let mut body: Vec<u8> = Vec::new();
    let mut i: usize = 0;
    while i < n
        invariant
            0 <= i <= n,
            n == data.len() - 1,
            body@ == data@.take(i as int),
        decreases n - i,
    {
        body.push(data[i]);
        i = i + 1;
        assert(body@ =~= data@.take(i as int));
    }
    assert(body@ =~= data@.drop_last());
    get_sum(body.as_slice()) == data[n]
}

/// What `parse_data_packet` yields for a frame.
pub enum FrameShape {
    TooShort,
    LengthMismatch,
    BadChecksum,
    Valid,
}

/// Classification of a response frame, in the order the checks are made.
pub open spec fn frame_shape(data: Seq<u8>) -> FrameShape {
    if data.len() < 4 {
        FrameShape::TooShort
    } else if data[2] as int + 2 != data.len() - 3 {
        FrameShape::LengthMismatch
    } else if !checksum_ok(data) {
        FrameShape::BadChecksum
    } else {
        FrameShape::Valid
    }
}

/// Parses a response frame `[Addr][CMD][Len][Status...][CRC]`.
///
/// The frame must hold at least four bytes, `Len + 2` status bytes and a
/// correct checksum; the status bytes are everything between `Len` and the
/// checksum byte.
pub fn parse_data_packet(data: &[u8]) -> (r: Result<DataPacket, &'static str>)
    ensures
        match frame_shape(data@) {
            FrameShape::TooShort => r matches Err(e) && e@ == "数据帧过短"@,
            FrameShape::LengthMismatch => r matches Err(e) && e@ == "数据帧长度不匹配"@,
            FrameShape::BadChecksum => r matches Err(e) && e@ == "校验和不匹配"@,
            FrameShape::Valid => r matches Ok(p) && {
                &&& p.addr == data@[0]
                &&& p.cmd == data@[1]
                &&& p.len == data@[2]
                &&& p.status@ == data@.subrange(3, data@.len() - 1)
                &&& p.crc == data@.last()
            },
        },
{
    if data.len() < 4 {
        return Err("数据帧过短");
    }
    let len = data[2] as usize;
    if len + 2 != data.len() - 3 {
        return Err("数据帧长度不匹配");
    }
    if !verify_checksum(data) {
        return Err("校验和不匹配");
    }
    let end = data.len() - 1;
    let mut status: Vec<u8> = Vec::new();
    let mut i: usize = 3;
    while i < end
        invariant
            3 <= i <= end,
            end == data.len() - 1,
            status@ == data@.subrange(3, i as int),
        decreases end - i,
    {
        status.push(data[i]);
        i = i + 1;
        assert(status@ =~= data@.subrange(3, i as int));
    }
    Ok(DataPacket::new(data[0], data[1], data[2], status, data[end]))
}

/// Index of the first pair of consecutive zero bytes at or after `from`.
pub open spec fn double_zero_from(buf: Seq<u8>, from: int) -> Option<int>
    decreases buf.len() - from,
{
    if from < 0 || from + 1 >= buf.len() {
        None
    } else if buf[from] == 0 && buf[from + 1] == 0 {
        Some(from)
    } else {
        double_zero_from(buf, from + 1)
    }
}

/// Index of the first pair of consecutive zero bytes.
pub open spec fn first_double_zero(buf: Seq<u8>) -> Option<int> {
    double_zero_from(buf, 0)
}

/// Finds the first position `i` with `buffer[i] == 0 && buffer[i + 1] == 0`.
pub fn find_double_zero(buffer: &[u8]) -> (r: Option<usize>)
    ensures
        match r {
            Some(i) => {
                &&& i + 1 < buffer@.len()
                &&& buffer@[i as int] == 0
                &&& buffer@[i + 1] == 0
                &&& forall|j: int| 0 <= j < i ==> !(#[trigger] buffer@[j] == 0 && buffer@[j + 1] == 0)
            },
            None => forall|j: int|
                0 <= j < buffer@.len() - 1 ==> !(#[trigger] buffer@[j] == 0 && buffer@[j + 1] == 0),
        },
        match r {
            Some(i) => first_double_zero(buffer@) == Some(i as int),
            None => first_double_zero(buffer@) is None,
        },
{
    let mut i: usize = 0;
    while buffer.len() > 0 && i < buffer.len() - 1
        invariant
            0 <= i,
            i <= buffer.len() || buffer.len() == 0,
            forall|j: int| 0 <= j < i ==> !(#[trigger] buffer@[j] == 0 && buffer@[j + 1] == 0),
            double_zero_from(buffer@, 0) == double_zero_from(buffer@, i as int),
        decreases buffer.len() - i,
    {
        if buffer[i] == 0 && buffer[i + 1] == 0 {
            return Some(i);
        }
        i = i + 1;
    }
    None
}

// ------------------------------------------------------------------
//  Hex strings
// ------------------------------------------------------------------

/// Value of a hexadecimal digit character, if it is one.
pub open spec fn hex_value(c: char) -> Option<nat> {
    if '0' <= c <= '9' {
        Some((c as nat - '0' as nat) as nat)
    } else if 'a' <= c <= 'f' {
        Some((c as nat - 'a' as nat + 10) as nat)
    } else if 'A' <= c <= 'F' {
        Some((c as nat - 'A' as nat + 10) as nat)
    } else {
        None
    }
}

/// The byte that a two-character hex field denotes: two hex digits, or a
/// `+` sign followed by one hex digit.
pub open spec fn hex_pair(a: char, b: char) -> Option<u8> {
    if a == '+' {
        match hex_value(b) {
            Some(v) => Some(v as u8),
            None => None,
        }
    } else {
        match (hex_value(a), hex_value(b)) {
            (Some(x), Some(y)) => Some((x * 16 + y) as u8),
            _ => None,
        }
    }
}

/// Decoding of an ASCII hex string of even length, two characters per byte.
pub open spec fn hex_decode(s: Seq<char>) -> Option<Seq<u8>>
    decreases s.len(),
{
    if s.len() < 2 {
        Some(Seq::empty())
    } else {
        match (hex_decode(s.drop_last().drop_last()), hex_pair(s[s.len() - 2], s[s.len() - 1])) {
            (Some(bs), Some(b)) => Some(bs.push(b)),
            _ => None,
        }
    }
}

/// Converts a hexadecimal string to bytes, two characters per byte.
///
/// Fails when the string's length in bytes is odd, or when a field is not
/// a hexadecimal byte (which includes every string with a non-ASCII
/// character).
pub fn hex_str_to_bytes(hex_str: &str) -> (r: Result<Vec<u8>, String>)
    ensures
        hex_str.len() % 2 != 0 ==> (r matches Err(e) && e@
            == "Hex 字符串长度不是偶数"@),
        hex_str.len() % 2 == 0 ==> match r {
            Ok(v) => vstd::string::is_ascii(hex_str) && hex_decode(hex_str@) == Some(v@),
            Err(e) => !(vstd::string::is_ascii(hex_str) && hex_decode(hex_str@) is Some) && e@
                == "invalid digit found in string"@,
        },
        vstd::utf8::is_ascii_chars(hex_str@) && hex_str@.len() % 2 == 0 && hex_decode(hex_str@) is Some
            ==> (r matches Ok(v) && hex_decode(hex_str@) == Some(v@)),
{
    broadcast use vstd::string::is_ascii_spec_bytes;
    let cs = crate::text::chars_of(hex_str);
    proof {
        if vstd::utf8::is_ascii_chars(hex_str@) {
            assert(vstd::string::is_ascii(hex_str));
            assert(hex_str.spec_bytes().len() == hex_str@.len());
            assert(hex_str@.len() == cs.len());
            assert(hex_str.len() as nat == hex_str@.len());
        }
    }
    if hex_str.len() % 2 != 0 {
        return Err(crate::text::string_from_chars(crate::text::chars_of("Hex 字符串长度不是偶数").as_slice()));
    }
    if !hex_str.is_ascii() {
        return Err(crate::text::string_from_chars(crate::text::chars_of("invalid digit found in string").as_slice()));
    }
    assert(cs@.len() == hex_str.spec_bytes().len());
    let mut out: Vec<u8> = Vec::new();
    let mut i: usize = 0;
    while i < cs.len()
        invariant
            0 <= i <= cs.len(),
            i % 2 == 0,
            cs.len() % 2 == 0,
            hex_decode(cs@.take(i as int)) == Some(out@),
            hex_str.len() % 2 == 0,
            vstd::string::is_ascii(hex_str),
            cs@ == hex_str@,
        decreases cs.len() - i,
    {
        let a = cs[i];
        let b = cs[i + 1];
        assert(cs@.take(i + 2).drop_last().drop_last() =~= cs@.take(i as int));
        let byte = hex_pair_exec(a, b);
        match byte {
            Some(v) => {
                out.push(v);
            },
            None => {
                proof {
                    lemma_hex_decode_prefix_none(cs@, (i + 2) as int);
                }
                return Err(crate::text::string_from_chars(crate::text::chars_of("invalid digit found in string").as_slice()));
            },
        }
        i = i + 2;
    }
    assert(cs@.take(cs.len() as int) =~= cs@);
    Ok(out)
}

/// A failed prefix (of even length) makes the whole decoding fail.
proof fn lemma_hex_decode_prefix_none(s: Seq<char>, k: int)
    requires
        2 <= k <= s.len(),
        k % 2 == 0,
        s.len() % 2 == 0,
        hex_decode(s.take(k)) is None,
    ensures
        hex_decode(s) is None,
    decreases s.len() - k,
{
    if k == s.len() {
        assert(s.take(k) =~= s);
    } else {
        assert(s.take(k + 2).drop_last().drop_last() =~= s.take(k));
        lemma_hex_decode_prefix_none(s, k + 2);
    }
}

fn hex_value_exec(c: char) -> (r: Option<u8>)
    ensures
        match hex_value(c) {
            Some(v) => r == Some(v as u8) && v < 16,
            None => r is None,
        },
{
    if '0' <= c && c <= '9' {
        Some(((c as u32) - 48) as u8)
    } else if 'a' <= c && c <= 'f' {
        Some(((c as u32) - 97 + 10) as u8)
    } else if 'A' <= c && c <= 'F' {
        Some(((c as u32) - 65 + 10) as u8)
    } else {
        None
    }
}

fn hex_pair_exec(a: char, b: char) -> (r: Option<u8>)
    ensures
        r == hex_pair(a, b),
{
    if a == '+' {
        hex_value_exec(b)
    } else {
        match (hex_value_exec(a), hex_value_exec(b)) {
            (Some(x), Some(y)) => Some(x * 16 + y),
            _ => None,
        }
    }
}

// ------------------------------------------------------------------
//  Status decoding
// ------------------------------------------------------------------

/// Unsigned big-endian value of `bs`.
pub open spec fn be_value(bs: Seq<u8>) -> nat
    decreases bs.len(),
{
    if bs.len() == 0 {
        0
    } else {
        be_value(bs.drop_last()) * 256 + bs.last() as nat
    }
}

/// Unsigned little-endian value of `bs`.
pub open spec fn le_value(bs: Seq<u8>) -> nat
    decreases bs.len(),
{
    if bs.len() == 0 {
        0
    } else {
        le_value(bs.drop_last()) + (bs.last() as nat) * pow2((8 * (bs.len() - 1)) as nat)
    }
}

/// The raw unsigned value that a record selects from a status block, if
/// the record's position is valid for the block.
///
/// `byte_index` is 1-based. A single bit must lie in 0..=7 of its byte. A
/// run `start..=end` counts bits from the record's byte; it must be ordered,
/// end below the block's bit count (taken as a `u32`, so modulo 2^32), end
/// inside the block, and be at most 32 bits wide. The bytes it spans are
/// read big-endian when `byte_order == 1`, little-endian otherwise, and the
/// run is taken from bit `start % 8` of that integer.
pub open spec fn raw_bits(data: Seq<u8>, rec: Record) -> Option<u32> {
    if rec.byte_index == 0 {
        None
    } else {
        let bi = rec.byte_index - 1;
        if bi >= data.len() {
            None
        } else {
            match rec.bit_index {
                BitIndex::Single(bit) => if bit >= 8 {
                    None
                } else {
                    Some(((data[bi] as nat / pow2(bit as nat)) % 2) as u32)
                },
                BitIndex::Range(r) => {
                    let s = r@.start;
                    let e = r@.end;
                    if s > e || e >= (data.len() * 8) % 0x1_0000_0000 {
                        None
                    } else {
                        let sb = bi + s / 8;
                        let eb = bi + e / 8;
                        let nb = e - s + 1;
                        if eb >= data.len() {
                            None
                        } else if nb > 32 {
                            None
                        } else {
                            let bytes = data.subrange(sb, eb + 1);
                            let combined = if rec.byte_order == 1 {
                                be_value(bytes)
                            } else {
                                le_value(bytes)
                            };
                            Some(((combined / pow2((s % 8) as nat)) % pow2(nb as nat)) as u32)
                        }
                    }
                },
            }
        }
    }
}

/// The typed reading of a record: `"uint"` as is, `"bool"` as non-zero,
/// `"float"` as hundredths; other types yield nothing.
pub open spec fn decode_record(data: Seq<u8>, rec: Record) -> Option<Value> {
    match raw_bits(data, rec) {
        None => None,
        Some(raw) => if rec.type_@ == "uint"@ {
            Some(Value::UInt(raw))
        } else if rec.type_@ == "bool"@ {
            Some(Value::Bool(raw != 0))
        } else if rec.type_@ == "float"@ {
            Some(Value::Hundredths(raw))
        } else {
            None
        },
    }
}

/// The `(kks, value)` entries decoded from `data`, in record order,
/// skipping records that yield nothing.
pub open spec fn decoded_entries(data: Seq<u8>, records: Seq<Record>) -> Seq<(Seq<char>, Value)>
    decreases records.len(),
{
    if records.len() == 0 {
        Seq::empty()
    } else {
        let rest = decoded_entries(data, records.drop_last());
        match decode_record(data, records.last()) {
            Some(v) => rest.push((records.last().kks@, v)),
            None => rest,
        }
    }
}

/// Plain model of a decoded entry list.
pub open spec fn entries_view(v: Seq<(String, Value)>) -> Seq<(Seq<char>, Value)> {
    v.map_values(|p: (String, Value)| (p.0@, p.1))
}

proof fn lemma_be_bound(bs: Seq<u8>)
    ensures
        be_value(bs) < pow2((8 * bs.len()) as nat),
    decreases bs.len(),
{
    if bs.len() == 0 {
        lemma2_to64();
    } else {
        let n = bs.len() - 1;
        lemma_be_bound(bs.drop_last());
        lemma_pow2_adds((8 * n) as nat, 8);
        lemma2_to64();
        assert((8 * n) as nat + 8 == (8 * bs.len()) as nat);
        let p = pow2((8 * n) as nat);
        assert(be_value(bs.drop_last()) + 1 <= p);
        assert(be_value(bs.drop_last()) * 256 + 256 <= p * 256) by (nonlinear_arith)
            requires
                be_value(bs.drop_last()) + 1 <= p,
        ;
    }
}

proof fn lemma_le_bound(bs: Seq<u8>)
    ensures
        le_value(bs) < pow2((8 * bs.len()) as nat),
    decreases bs.len(),
{
    if bs.len() == 0 {
        lemma2_to64();
    } else {
        let n = bs.len() - 1;
        lemma_le_bound(bs.drop_last());
        lemma_pow2_adds((8 * n) as nat, 8);
        lemma2_to64();
        assert((8 * n) as nat + 8 == (8 * bs.len()) as nat);
        let p = pow2((8 * n) as nat);
        let l = bs.last() as nat;
        assert(le_value(bs.drop_last()) + l * p < p * 256) by (nonlinear_arith)
            requires
                le_value(bs.drop_last()) < p,
                l <= 255,
        ;
    }
}

/// Reads the bytes `sb..=eb` of `data` as one integer.
fn combine_bytes(data: &[u8], sb: usize, eb: usize, big_endian: bool) -> (c: u64)
    requires
        sb <= eb < data.len(),
        eb - sb < 5,
    ensures
        c == if big_endian {
            be_value(data@.subrange(sb as int, eb + 1))
        } else {
            le_value(data@.subrange(sb as int, eb + 1))
        },
{
    let mut c: u64 = 0;
    let mut mult: u64 = 1;
    let mut k: usize = sb;
    proof {
        lemma2_to64();
    }
    while k <= eb
        invariant
            sb <= k <= eb + 1,
            eb < data.len(),
            eb - sb < 5,
            k <= eb ==> mult == pow2((8 * (k - sb)) as nat),
            c == if big_endian {
                be_value(data@.subrange(sb as int, k as int))
            } else {
                le_value(data@.subrange(sb as int, k as int))
            },
        decreases eb + 1 - k,
    {
        let ghost bs = data@.subrange(sb as int, k as int);
        let ghost bs1 = data@.subrange(sb as int, k + 1);
        assert(bs1.drop_last() =~= bs);
        let ghost e = (8 * (k - sb)) as nat;
        proof {
            lemma_be_bound(bs);
            lemma_le_bound(bs);
            if e < 32 {
                lemma_pow2_strictly_increases(e, 32);
            }
            lemma2_to64();
            lemma_pow2_adds(e, 8);
        }
        assert(mult <= 0x100000000);
        let b = data[k] as u64;
        if big_endian {
            assert(c * 256 + b < 0x10000000000000000) by (nonlinear_arith)
                requires
                    c < 0x100000000,
                    b < 256,
            ;
            c = c * 256 + b;
        } else {
            assert(c + b * mult < 0x10000000000000000) by (nonlinear_arith)
                requires
                    c < mult,
                    mult <= 0x100000000,
                    b < 256,
            ;
            c = c + b * mult;
        }
        if k < eb {
            assert(mult * 256 < 0x10000000000000000) by (nonlinear_arith)
                requires
                    mult <= 0x100000000,
            ;
            mult = mult * 256;
            assert(pow2((8 * (k + 1 - sb)) as nat) == pow2(e) * pow2(8));
        }
        k = k + 1;
    }
    c
}

/// `pow2(n)` as a machine integer.
fn pow2_exec(n: u32) -> (p: u64)
    requires
        n <= 32,
    ensures
        p == pow2(n as nat),
{
    let mut p: u64 = 1;
    let mut t: u32 = 0;
    proof {
        lemma2_to64();
    }
    while t < n
        invariant
            t <= n <= 32,
            p == pow2(t as nat),
        decreases n - t,
    {
        proof {
            lemma_pow2_strictly_increases(t as nat, 32);
            lemma_pow2_unfold((t + 1) as nat);
            lemma2_to64();
        }
        p = p * 2;
        t = t + 1;
    }
    p
}

/// The raw value that `rec` selects from `data`.
fn raw_bits_exec(data: &[u8], rec: &Record) -> (r: Option<u32>)
    ensures
        r == raw_bits(data@, *rec),
{
    if rec.byte_index == 0 {
        return None;
    }
    let bi = (rec.byte_index - 1) as usize;
    if bi >= data.len() {
        return None;
    }
    match &rec.bit_index {
        BitIndex::Single(bit) => {
            if *bit >= 8 {
                return None;
            }
            let d = pow2_exec(*bit) as u8;
            proof {
                lemma_pow2_strictly_increases(*bit as nat, 8);
                lemma2_to64();
            }
            Some(((data[bi] / d) % 2) as u32)
        },
        BitIndex::Range(range) => {
            let total_bits = ((data.len() as u128 * 8) % 0x1_0000_0000) as u32;
            let s = *range.start();
            let e = *range.end();
            if s > e || e >= total_bits {
                return None;
            }
            if (e / 8) as usize >= data.len() - bi {
                return None;
            }
            let eb = bi + (e / 8) as usize;
            let sb = bi + (s / 8) as usize;
            let nb = e - s + 1;
            if nb > 32 {
                return None;
            }
            let c = combine_bytes(data, sb, eb, rec.byte_order == 1);
            let div = pow2_exec(s % 8);
            let modulus = pow2_exec(nb);
            proof {
                lemma_pow2_pos((s % 8) as nat);
                lemma2_to64();
            }
            let raw = (c / div) % modulus;
            assert(raw < 0x1_0000_0000);
            Some(raw as u32)
        },
    }
}

/// Decodes every record's reading from a status block.
///
/// Entries come in record order; a record whose position is invalid for the
/// block, or whose type is unknown, is skipped. Where several records share
/// a KKS, the later entry is the one a map built from the list keeps.
pub fn parse_status(data: &[u8], records: &[Record]) -> (r: Vec<(String, Value)>)
    ensures
        entries_view(r@) == decoded_entries(data@, records@),
{
    let mut out: Vec<(String, Value)> = Vec::new();
    let mut i: usize = 0;
    while i < records.len()
        invariant
            0 <= i <= records.len(),
            entries_view(out@) == decoded_entries(data@, records@.take(i as int)),
        decreases records.len() - i,
    {
        let rec = &records[i];
        assert(records@.take(i + 1).drop_last() =~= records@.take(i as int));
        assert(records@.take(i + 1).last() == *rec);
        let raw = raw_bits_exec(data, rec);
        let value = match raw {
            None => None,
            Some(raw) => if str_eq(rec.type_.as_str(), "uint") {
                Some(Value::UInt(raw))
            } else if str_eq(rec.type_.as_str(), "bool") {
                Some(Value::Bool(raw != 0))
            } else if str_eq(rec.type_.as_str(), "float") {
                Some(Value::Hundredths(raw))
            } else {
                None
            },
        };
        assert(value == decode_record(data@, *rec));
        match value {
            Some(v) => {
                let ghost before = out@;
                out.push((rec.kks.clone(), v));
                assert(entries_view(out@) =~= entries_view(before).push((rec.kks@, v)));
            },
            None => {},
        }
        i = i + 1;
    }
    assert(records@.take(records.len() as int) =~= records@);
    out
}

// ------------------------------------------------------------------
//  Laws
// ------------------------------------------------------------------

proof fn lemma_byte_sum_push(data: Seq<u8>, b: u8)
    ensures
        data.push(b).drop_last() == data,
        data.push(b).last() == b,
{
    assert(data.push(b).drop_last() =~= data);
}

/// A frame closed by its additive checksum passes the checksum check.
pub proof fn law_appended_checksum_verifies(data: Seq<u8>)
    ensures
        checksum_ok(data.push(crate::model::byte_sum(data))),
{
    lemma_byte_sum_push(data, crate::model::byte_sum(data));
}

/// A response built as address, command, length byte `len`, `len + 1`
/// status bytes and the checksum parses, and gives back those status
/// bytes.
pub proof fn law_built_response_parses(addr: u8, cmd: u8, len: u8, status: Seq<u8>)
    requires
        status.len() == len + 1,
    ensures
        ({
            let body = seq![addr, cmd, len] + status;
            let frame = body.push(crate::model::byte_sum(body));
            &&& frame_shape(frame) is Valid
            &&& frame.subrange(3, frame.len() - 1) == status
            &&& frame.len() == len + 5
        }),
{
    let body = seq![addr, cmd, len] + status;
    let frame = body.push(crate::model::byte_sum(body));
    law_appended_checksum_verifies(body);
    assert(frame.subrange(3, frame.len() - 1) =~= status);
}

proof fn lemma_hex_digit_value(d: int)
    requires
        0 <= d < 16,
    ensures
        hex_value(crate::model::command::hex_digit(d)) == Some(d as nat),
        crate::model::command::hex_digit(d) != '+',
        (crate::model::command::hex_digit(d) as u32) < 128,
{
    let c = crate::model::command::hex_digit(d);
    if d < 10 {
        assert(((d + 48) as u8) as char as nat == d + 48);
    } else {
        assert(((d + 55) as u8) as char as nat == d + 55);
    }
}

/// Decoding the upper-case hexadecimal text of some bytes gives the bytes
/// back: `hex_str_to_bytes` undoes `SendData::command_as_string`.
pub proof fn law_hex_round_trip(bytes: Seq<u8>)
    ensures
        hex_decode(crate::model::command::hex_upper(bytes)) == Some(bytes),
        crate::model::command::hex_upper(bytes).len() == 2 * bytes.len(),
        vstd::utf8::is_ascii_chars(crate::model::command::hex_upper(bytes)),
    decreases bytes.len(),
{
    if bytes.len() > 0 {
        let init = bytes.drop_last();
        let b = bytes.last();
        law_hex_round_trip(init);
        let hi = crate::model::command::hex_digit(b as int / 16);
        let lo = crate::model::command::hex_digit(b as int % 16);
        lemma_hex_digit_value(b as int / 16);
        lemma_hex_digit_value(b as int % 16);
        let t = crate::model::command::hex_upper(bytes);
        let ti = crate::model::command::hex_upper(init);
        assert(t == ti + seq![hi, lo]);
        assert(t.drop_last().drop_last() =~= ti);
        assert(t[t.len() - 2] == hi);
        assert(t[t.len() - 1] == lo);
        assert((b as int / 16) * 16 + b as int % 16 == b as int);
        assert(hex_pair(hi, lo) == Some(b));
        assert(bytes =~= init.push(b));
        assert forall|i: int| 0 <= i < t.len() implies '\0' <= #[trigger] t[i] <= '\u{7f}' by {
            if i < ti.len() {
                assert(t[i] == ti[i]);
            }
        }
    }
}

/// The text of a command, as `SendData::command_as_string` writes it, is
/// accepted by `hex_str_to_bytes`: it is ASCII, of even length in bytes, and
/// decodes to the command bytes, so `hex_str_to_bytes` returns exactly them.
pub proof fn law_command_text_decodes(bytes: Seq<u8>, s: &str)
    requires
        bytes.len() <= usize::MAX,
        s@ == crate::model::command::hex_upper(bytes),
    ensures
        vstd::string::is_ascii(s),
        s.len() % 2 == 0,
        hex_decode(s@) == Some(bytes),
{
    broadcast use vstd::string::is_ascii_spec_bytes;
    law_hex_round_trip(bytes);
    assert(vstd::string::is_ascii(s));
    assert(s.spec_bytes().len() == s@.len());
    assert(s.spec_bytes().len() == 2 * bytes.len());
    let n = bytes.len() as usize;
    assert(((n + n) as usize) % 2 == 0) by (bit_vector);
    assert(s.len() == (n + n) as usize);
}


/// Bit `b` of `x` by division equals bit `b` by shift and mask.
proof fn lemma_bit_of_byte(x: u8, b: u8)
    requires
        b < 8,
    ensures
        (x as nat / pow2(b as nat)) % 2 == ((x >> b) & 1u8) as nat,
{
    lemma2_to64();
    if b == 0 {
        assert((x >> 0u8) & 1u8 == (x / 1u8) % 2u8) by (bit_vector);
    } else if b == 1 {
        assert((x >> 1u8) & 1u8 == (x / 2u8) % 2u8) by (bit_vector);
    } else if b == 2 {
        assert((x >> 2u8) & 1u8 == (x / 4u8) % 2u8) by (bit_vector);
    } else if b == 3 {
        assert((x >> 3u8) & 1u8 == (x / 8u8) % 2u8) by (bit_vector);
    } else if b == 4 {
        assert((x >> 4u8) & 1u8 == (x / 16u8) % 2u8) by (bit_vector);
    } else if b == 5 {
        assert((x >> 5u8) & 1u8 == (x / 32u8) % 2u8) by (bit_vector);
    } else if b == 6 {
        assert((x >> 6u8) & 1u8 == (x / 64u8) % 2u8) by (bit_vector);
    } else {
        assert((x >> 7u8) & 1u8 == (x / 128u8) % 2u8) by (bit_vector);
    }
}

/// A single-bit data point reads bit `bit` of its own byte, the
/// `byte_index`-th (counted from 1): `(data[byte_index - 1] >> bit) & 1`.
/// As a `bool` point that bit is the reading, as a `uint` point its value,
/// and the decoded block holds exactly that one entry.
pub proof fn law_single_bit_reading(data: Seq<u8>, rec: Record)
    requires
        1 <= rec.byte_index <= data.len(),
        rec.bit_index matches BitIndex::Single(b) && b < 8,
    ensures
        ({
            let b = rec.bit_index->Single_0;
            let bit = (data[rec.byte_index - 1] >> (b as u8)) & 1u8;
            &&& raw_bits(data, rec) == Some(bit as u32)
            &&& rec.type_@ == "bool"@ ==> decode_record(data, rec) == Some(Value::Bool(bit == 1u8))
            &&& rec.type_@ == "uint"@ ==> decode_record(data, rec) == Some(Value::UInt(bit as u32))
            &&& rec.type_@ == "bool"@ ==> decoded_entries(data, seq![rec]) == seq![(rec.kks@, Value::Bool(bit == 1u8))]
        }),
{
    let b = rec.bit_index->Single_0;
    let x = data[rec.byte_index - 1];
    lemma_bit_of_byte(x, b as u8);
    assert(((x >> (b as u8)) & 1u8) <= 1u8) by (bit_vector);
    reveal_strlit("bool");
    reveal_strlit("uint");
    let bit = (x >> (b as u8)) & 1u8;
    assert(raw_bits(data, rec) == Some(bit as u32));
    assert("uint"@ != "bool"@) by {
        assert("uint"@[0] != "bool"@[0]);
    }
    assert(seq![rec].drop_last() =~= Seq::<Record>::empty());
    assert(seq![rec].last() == rec);
    if rec.type_@ == "bool"@ {
        assert(decode_record(data, rec) == Some(Value::Bool(bit == 1u8)));
        assert(decoded_entries(data, Seq::<Record>::empty()) =~= Seq::<(Seq<char>, Value)>::empty());
        assert(decoded_entries(data, seq![rec]) =~= seq![(rec.kks@, Value::Bool(bit == 1u8))]);
    }
}

} // verus!
