//! The binary form of the basic value types: little-endian integers,
//! booleans, length-prefixed strings and node identifiers, written to and
//! read from byte buffers. Every writer appends exactly the bytes its
//! specification names; every reader agrees with its specification on
//! success, failure and the position reached.

use vstd::prelude::*;
use vstd::arithmetic::div_mod::lemma_fundamental_div_mod;
use crate::basic_types::NodeId;
use crate::basic_types::StatusCode;
use crate::basic_types::UAString;

verus! {

/// The length prefix that marks a null string on the wire: -1 as a
/// two's-complement 32-bit value.
pub const NULL_LENGTH_MARKER: u32 = 0xFFFF_FFFF;

/// The largest string or array length the wire format can carry: the
/// largest positive 32-bit signed value.
pub const MAX_ENCODED_LENGTH: u32 = 0x7FFF_FFFF;

/// The outcome of an encoding-layer operation.
pub type EncodingResult<T> = Result<T, StatusCode>;

/// A 16-bit value as its two little-endian bytes.
pub open spec fn spec_u16_le(v: u16) -> Seq<u8> {
    seq![(v % 256) as u8, (v / 256) as u8]
}

/// A 32-bit value as its four little-endian bytes: the low half word, then
/// the high half word.
pub open spec fn spec_u32_le(v: u32) -> Seq<u8> {
    spec_u16_le((v % 0x10000) as u16) + spec_u16_le((v / 0x10000) as u16)
}

/// A boolean as one byte, 1 for true and 0 for false.
pub open spec fn spec_bool_enc(v: bool) -> Seq<u8> {
    seq![if v { 1u8 } else { 0u8 }]
}

/// A node identifier as its namespace then its numeric value.
pub open spec fn spec_node_id_enc(n: NodeId) -> Seq<u8> {
    spec_u16_le(n.namespace) + spec_u32_le(n.value)
}

/// A string, read as its view, as a 32-bit length prefix and its bytes; a
/// null string is the null length marker alone.
pub open spec fn spec_string_enc(s: Option<Seq<u8>>) -> Seq<u8> {
    match s {
        None => spec_u32_le(NULL_LENGTH_MARKER),
        Some(b) => spec_u32_le(b.len() as u32) + b,
    }
}

/// A string can be carried only if its length fits the positive range of
/// the 32-bit length prefix.
pub open spec fn string_wf(s: Option<Seq<u8>>) -> bool {
    match s {
        None => true,
        Some(b) => b.len() <= MAX_ENCODED_LENGTH,
    }
}

/// Reading two little-endian bytes at `pos`: the value and the position
/// after it, or nothing when the buffer is too short.
pub open spec fn spec_read_u16(d: Seq<u8>, pos: int) -> Option<(u16, int)> {
    if 0 <= pos && pos + 2 <= d.len() {
        Some(((d[pos] + d[pos + 1] * 256) as u16, pos + 2))
    } else {
        None
    }
}

/// Reading four little-endian bytes at `pos`.
pub open spec fn spec_read_u32(d: Seq<u8>, pos: int) -> Option<(u32, int)> {
    match spec_read_u16(d, pos) {
        None => None,
        Some((lo, p1)) => match spec_read_u16(d, p1) {
            None => None,
            Some((hi, p2)) => Some(((lo + hi * 0x10000) as u32, p2)),
        },
    }
}

/// Reading one byte as a boolean: any nonzero byte reads as true.
pub open spec fn spec_read_bool(d: Seq<u8>, pos: int) -> Option<(bool, int)> {
    if 0 <= pos && pos + 1 <= d.len() {
        Some((d[pos] != 0, pos + 1))
    } else {
        None
    }
}

/// Reading a node identifier: namespace, then numeric value.
pub open spec fn spec_read_node_id(d: Seq<u8>, pos: int) -> Option<(NodeId, int)> {
    match spec_read_u16(d, pos) {
        None => None,
        Some((namespace, p1)) => match spec_read_u32(d, p1) {
            None => None,
            Some((value, p2)) => Some((NodeId { namespace, value }, p2)),
        },
    }
}

/// Reading a string: the length prefix, then that many bytes; the null
/// length marker reads as the null string, and a length above the positive
/// 32-bit range or past the end of the buffer reads as nothing.
pub open spec fn spec_read_string(d: Seq<u8>, pos: int) -> Option<(Option<Seq<u8>>, int)> {
    match spec_read_u32(d, pos) {
        None => None,
        Some((len, p1)) => if len == NULL_LENGTH_MARKER {
            Some((None, p1))
        } else if len > MAX_ENCODED_LENGTH || p1 + len > d.len() {
            None
        } else {
            Some((Some(d.subrange(p1, p1 + len)), p1 + len))
        },
    }
}

/// Appends the two little-endian bytes of `v`.
pub fn write_u16(out: &mut Vec<u8>, v: u16)
    ensures
        final(out)@ == old(out)@ + spec_u16_le(v),
{
    out.push((v % 256) as u8);
    out.push((v / 256) as u8);
    proof {
        assert(final(out)@ =~= old(out)@ + spec_u16_le(v));
    }
}

/// Appends the four little-endian bytes of `v`.
pub fn write_u32(out: &mut Vec<u8>, v: u32)
    ensures
        final(out)@ == old(out)@ + spec_u32_le(v),
{
    write_u16(out, (v % 0x10000) as u16);
    write_u16(out, (v / 0x10000) as u16);
    proof {
        assert(final(out)@ =~= old(out)@ + spec_u32_le(v));
    }
}

/// Appends the one-byte form of `v`.
pub fn write_bool(out: &mut Vec<u8>, v: bool)
    ensures
        final(out)@ == old(out)@ + spec_bool_enc(v),
{
    out.push(if v { 1u8 } else { 0u8 });
    proof {
        assert(final(out)@ =~= old(out)@ + spec_bool_enc(v));
    }
}

/// Appends the six-byte form of `n`.
pub fn write_node_id(out: &mut Vec<u8>, n: &NodeId)
    ensures
        final(out)@ == old(out)@ + spec_node_id_enc(*n),
{
    write_u16(out, n.namespace);
    write_u32(out, n.value);
    proof {
        assert(final(out)@ =~= old(out)@ + spec_node_id_enc(*n));
    }
}

/// Appends the length-prefixed form of `s`.
pub fn write_string(out: &mut Vec<u8>, s: &UAString)
    requires
        string_wf(s@),
    ensures
        final(out)@ == old(out)@ + spec_string_enc(s@),
{
    match &s.value {
        None => {
            write_u32(out, NULL_LENGTH_MARKER);
        },
        Some(bytes) => {
            write_u32(out, bytes.len() as u32);
            let n = bytes.len();
            let mut k: usize = 0;
            while k < n
                invariant
                    n == bytes.len(),
                    k <= n,
                    s.value == Some(*bytes),
                    out@ == old(out)@ + spec_u32_le(bytes.len() as u32) + bytes@.subrange(
                        0,
                        k as int,
                    ),
                decreases n - k,
            {
                out.push(bytes[k]);
                proof {
                    assert(out@ =~= old(out)@ + spec_u32_le(bytes.len() as u32)
                        + bytes@.subrange(0, k + 1));
                }
                k = k + 1;
            }
            proof {
                assert(bytes@.subrange(0, n as int) =~= bytes@);
                assert(out@ =~= old(out)@ + spec_string_enc(s@));
            }
        },
    }
}

/// Reads two little-endian bytes, exactly as the specification reads them.
pub fn read_u16(data: &[u8], pos: usize) -> (r: EncodingResult<(u16, usize)>)
    ensures
        match r {
            Ok((v, p)) => spec_read_u16(data@, pos as int) == Some((v, p as int)),
            Err(_) => spec_read_u16(data@, pos as int) is None,
        },
{
    if pos < data.len() && data.len() - pos >= 2 {
        let b0 = data[pos];
        let b1 = data[pos + 1];
        Ok(((b0 as u16) + (b1 as u16) * 256, pos + 2))
    } else {
        Err(StatusCode::BadDecodingError)
    }
}

/// Reads four little-endian bytes, exactly as the specification reads them.
pub fn read_u32(data: &[u8], pos: usize) -> (r: EncodingResult<(u32, usize)>)
    ensures
        match r {
            Ok((v, p)) => spec_read_u32(data@, pos as int) == Some((v, p as int)),
            Err(_) => spec_read_u32(data@, pos as int) is None,
        },
{
    let (lo, p1) = read_u16(data, pos)?;
    let (hi, p2) = read_u16(data, p1)?;
    Ok(((lo as u32) + (hi as u32) * 0x10000, p2))
}

/// Reads one byte as a boolean, exactly as the specification reads it.
pub fn read_bool(data: &[u8], pos: usize) -> (r: EncodingResult<(bool, usize)>)
    ensures
        match r {
            Ok((v, p)) => spec_read_bool(data@, pos as int) == Some((v, p as int)),
            Err(_) => spec_read_bool(data@, pos as int) is None,
        },
{
    if pos < data.len() {
        Ok((data[pos] != 0, pos + 1))
    } else {
        Err(StatusCode::BadDecodingError)
    }
}

/// Reads a node identifier, exactly as the specification reads it.
pub fn read_node_id(data: &[u8], pos: usize) -> (r: EncodingResult<(NodeId, usize)>)
    ensures
        match r {
            Ok((v, p)) => spec_read_node_id(data@, pos as int) == Some((v, p as int)),
            Err(_) => spec_read_node_id(data@, pos as int) is None,
        },
{
    let (namespace, p1) = read_u16(data, pos)?;
    let (value, p2) = read_u32(data, p1)?;
    Ok((NodeId { namespace, value }, p2))
}

/// Reads a length-prefixed string; on success the string's view is what
/// the specification reads.
pub fn read_string(data: &[u8], pos: usize) -> (r: EncodingResult<(UAString, usize)>)
    ensures
        match r {
            Ok((v, p)) => spec_read_string(data@, pos as int) == Some((v@, p as int))
                && string_wf(v@),
            Err(_) => spec_read_string(data@, pos as int) is None,
        },
{
    let (len, p1) = read_u32(data, pos)?;
    if len == NULL_LENGTH_MARKER {
        return Ok((UAString { value: None }, p1));
    }
    if len > MAX_ENCODED_LENGTH {
        return Err(StatusCode::BadDecodingError);
    }
    let len = len as usize;
    if p1 > data.len() || len > data.len() - p1 {
        return Err(StatusCode::BadDecodingError);
    }
    let mut bytes: Vec<u8> = Vec::new();
    let mut k: usize = 0;
    while k < len
        invariant
            k <= len,
            p1 + len <= data.len(),
            bytes@ == data@.subrange(p1 as int, p1 + k),
        decreases len - k,
    {
        bytes.push(data[p1 + k]);
        proof {
            assert(bytes@ =~= data@.subrange(p1 as int, p1 + k + 1));
        }
        k = k + 1;
    }
    Ok((UAString { value: Some(bytes) }, p1 + len))
}

/// Slicing a slice of `d` is slicing `d` itself, at shifted positions.
pub proof fn lemma_subrange_of_subrange(d: Seq<u8>, pos: int, len: int, a: int, b: int)
    requires
        0 <= pos,
        pos + len <= d.len(),
        0 <= a <= b <= len,
    ensures
        d.subrange(pos, pos + len).subrange(a, b) == d.subrange(pos + a, pos + b),
{
    assert(d.subrange(pos, pos + len).subrange(a, b) =~= d.subrange(pos + a, pos + b));
}

/// Reading back what `spec_u16_le` wrote yields the value written and
/// stops right after it.
pub proof fn lemma_u16_round_trip(d: Seq<u8>, pos: int, v: u16)
    requires
        0 <= pos,
        pos + 2 <= d.len(),
        d.subrange(pos, pos + 2) == spec_u16_le(v),
    ensures
        spec_read_u16(d, pos) == Some((v, pos + 2)),
{
    assert(d[pos] == spec_u16_le(v)[0]);
    assert(d[pos + 1] == spec_u16_le(v)[1]);
    lemma_fundamental_div_mod(v as int, 256);
}

/// Reading back what `spec_u32_le` wrote yields the value written and
/// stops right after it.
pub proof fn lemma_u32_round_trip(d: Seq<u8>, pos: int, v: u32)
    requires
        0 <= pos,
        pos + 4 <= d.len(),
        d.subrange(pos, pos + 4) == spec_u32_le(v),
    ensures
        spec_read_u32(d, pos) == Some((v, pos + 4)),
{
    let lo = (v % 0x10000) as u16;
    let hi = (v / 0x10000) as u16;
    let whole = d.subrange(pos, pos + 4);
    lemma_subrange_of_subrange(d, pos, 4, 0, 2);
    assert(whole.subrange(0, 2) =~= spec_u16_le(lo));
    lemma_subrange_of_subrange(d, pos, 4, 2, 4);
    assert(whole.subrange(2, 4) =~= spec_u16_le(hi));
    lemma_u16_round_trip(d, pos, lo);
    lemma_u16_round_trip(d, pos + 2, hi);
    lemma_fundamental_div_mod(v as int, 0x10000);
}

/// Reading back what `spec_bool_enc` wrote yields the value written.
pub proof fn lemma_bool_round_trip(d: Seq<u8>, pos: int, v: bool)
    requires
        0 <= pos,
        pos + 1 <= d.len(),
        d.subrange(pos, pos + 1) == spec_bool_enc(v),
    ensures
        spec_read_bool(d, pos) == Some((v, pos + 1)),
{
    assert(d[pos] == spec_bool_enc(v)[0]);
}

/// Reading back what `spec_node_id_enc` wrote yields the identifier
/// written.
pub proof fn lemma_node_id_round_trip(d: Seq<u8>, pos: int, n: NodeId)
    requires
        0 <= pos,
        pos + 6 <= d.len(),
        d.subrange(pos, pos + 6) == spec_node_id_enc(n),
    ensures
        spec_read_node_id(d, pos) == Some((n, pos + 6)),
{
    let whole = d.subrange(pos, pos + 6);
    lemma_subrange_of_subrange(d, pos, 6, 0, 2);
    assert(whole.subrange(0, 2) =~= spec_u16_le(n.namespace));
    lemma_subrange_of_subrange(d, pos, 6, 2, 6);
    assert(whole.subrange(2, 6) =~= spec_u32_le(n.value));
    lemma_u16_round_trip(d, pos, n.namespace);
    lemma_u32_round_trip(d, pos + 2, n.value);
}

/// Reading back what `spec_string_enc` wrote yields the string written and
/// stops right after it.
pub proof fn lemma_string_round_trip(d: Seq<u8>, pos: int, s: Option<Seq<u8>>)
    requires
        0 <= pos,
        string_wf(s),
        pos + spec_string_enc(s).len() <= d.len(),
        d.subrange(pos, pos + spec_string_enc(s).len() as int) == spec_string_enc(s),
    ensures
        spec_read_string(d, pos) == Some((s, pos + spec_string_enc(s).len() as int)),
{
    match s {
        None => {
            assert(d.subrange(pos, pos + 4) =~= spec_u32_le(NULL_LENGTH_MARKER));
            lemma_u32_round_trip(d, pos, NULL_LENGTH_MARKER);
        },
        Some(b) => {
            let len = b.len() as u32;
            let total = spec_string_enc(s).len() as int;
            assert(total == 4 + b.len());
            let whole = d.subrange(pos, pos + total);
            lemma_subrange_of_subrange(d, pos, total, 0, 4);
            assert(whole.subrange(0, 4) =~= spec_u32_le(len));
            lemma_u32_round_trip(d, pos, len);
            assert(len != NULL_LENGTH_MARKER);
            assert(len <= MAX_ENCODED_LENGTH);
            lemma_subrange_of_subrange(d, pos, total, 4, total);
            assert(whole.subrange(4, total) =~= b);
        },
    }
}

} // verus!
