//! The wire-level encoding shared by the messages of the format: varints and
//! tagged fields, together with the specification-level model the parsers
//! are verified against.

use crate::error::WireFault;
use vstd::prelude::*;

verus! {

/// 128 to the power `n`: the weight of the `n`-th varint group.
pub open spec fn pow128(n: int) -> int
    decreases n,
{
    if n <= 0 {
        1
    } else {
        128 * pow128(n - 1)
    }
}

/// Position just past the varint starting at `i`: the first byte without a
/// continuation bit. `fuel` bounds how many bytes the varint may span.
pub open spec fn varint_end(s: Seq<u8>, i: int, fuel: int) -> Option<int>
    decreases fuel,
{
    if i < 0 || i >= s.len() || fuel <= 0 {
        None
    } else if s[i] < 128 {
        Some(i + 1)
    } else {
        varint_end(s, i + 1, fuel - 1)
    }
}

/// Value of the varint groups `s[i..end]`, least-significant group first,
/// seven payload bits per byte.
pub open spec fn varint_value(s: Seq<u8>, i: int, end: int) -> int
    decreases end - i,
{
    if i >= end {
        0
    } else {
        (s[i] as int) % 128 + 128 * varint_value(s, i + 1, end)
    }
}

/// The varint at position `i`: its value and the position just past it.
/// `None` when it is truncated, spans more than ten bytes, or its value does
/// not fit 64 bits.
pub open spec fn varint_at(s: Seq<u8>, i: int) -> Option<(int, int)> {
    match varint_end(s, i, 10) {
        Some(end) => {
            let v = varint_value(s, i, end);
            if v < 0x1_0000_0000_0000_0000 {
                Some((v, end))
            } else {
                None
            }
        },
        None => None,
    }
}

proof fn lemma_pow128_pos(n: int)
    ensures
        pow128(n) >= 1,
    decreases n,
{
    if n > 0 {
        lemma_pow128_pos(n - 1);
    }
}

proof fn lemma_pow128_increases(a: int, b: int)
    requires
        a <= b,
    ensures
        pow128(a) <= pow128(b),
    decreases b - a,
{
    if a < b {
        lemma_pow128_increases(a, b - 1);
        lemma_pow128_pos(b - 1);
    }
}

proof fn lemma_varint_value_snoc(s: Seq<u8>, i: int, end: int)
    requires
        i <= end,
    ensures
        varint_value(s, i, end + 1) == varint_value(s, i, end) + ((s[end] as int) % 128) * pow128(
            end - i,
        ),
    decreases end - i,
{
    let g = (s[end] as int) % 128;
    if i == end {
        assert(varint_value(s, i, end) == 0);
        assert(varint_value(s, end + 1, end + 1) == 0);
        assert(varint_value(s, i, end + 1) == g);
        assert(pow128(0) == 1);
    } else {
        lemma_varint_value_snoc(s, i + 1, end);
        let rest = varint_value(s, i + 1, end);
        let p = pow128(end - i - 1);
        assert(varint_value(s, i, end + 1) == (s[i] as int) % 128 + 128 * (rest + g * p));
        assert(128 * (rest + g * p) == 128 * rest + 128 * (g * p)) by (nonlinear_arith);
        assert(128 * (g * p) == g * (128 * p)) by (nonlinear_arith);
        assert(pow128(end - i) == 128 * p);
    }
}

proof fn lemma_varint_value_bound(s: Seq<u8>, i: int, end: int)
    requires
        i <= end,
    ensures
        0 <= varint_value(s, i, end) < pow128(end - i),
    decreases end - i,
{
    if i < end {
        lemma_varint_value_bound(s, i + 1, end);
        let rest = varint_value(s, i + 1, end);
        let p = pow128(end - i - 1);
        assert(128 * rest <= 128 * (p - 1));
        assert((s[i] as int) % 128 < 128);
    }
}

proof fn lemma_varint_end_advances(s: Seq<u8>, i: int, fuel: int)
    requires
        varint_end(s, i, fuel) is Some,
    ensures
        i < varint_end(s, i, fuel).unwrap() <= s.len(),
        varint_end(s, i, fuel).unwrap() <= i + fuel,
    decreases fuel,
{
    if !(i < 0 || i >= s.len() || fuel <= 0) && s[i] >= 128 {
        lemma_varint_end_advances(s, i + 1, fuel - 1);
    }
}

/// The varint at `i` ends past `i` and within the message.
pub proof fn lemma_varint_at_advances(s: Seq<u8>, i: int)
    requires
        varint_at(s, i) is Some,
    ensures
        i < varint_at(s, i).unwrap().1 <= s.len(),
        0 <= varint_at(s, i).unwrap().0 < 0x1_0000_0000_0000_0000,
    decreases 0int,
{
    let end = varint_end(s, i, 10).unwrap();
    lemma_varint_end_advances(s, i, 10);
    lemma_varint_value_bound(s, i, end);
}

/// A decoded field value, by wire type: a varint, an eight-byte scalar, a
/// length-delimited chunk, or a four-byte scalar.
pub enum WireValue {
    Uint(int),
    Fixed64(Seq<u8>),
    Chunk(Seq<u8>),
    Fixed32(Seq<u8>),
}

/// Position just past the value of a field with wire type `wt` at `i`, or
/// `None` when the value is malformed or truncated.
pub open spec fn value_end(s: Seq<u8>, i: int, wt: int) -> Option<int> {
    if wt == 0 {
        match varint_at(s, i) {
            Some((v, j)) => Some(j),
            None => None,
        }
    } else if wt == 1 {
        if i + 8 <= s.len() {
            Some(i + 8)
        } else {
            None
        }
    } else if wt == 2 {
        match varint_at(s, i) {
            Some((n, j)) => if j + n <= s.len() {
                Some(j + n)
            } else {
                None
            },
            None => None,
        }
    } else if wt == 5 {
        if i + 4 <= s.len() {
            Some(i + 4)
        } else {
            None
        }
    } else {
        None
    }
}

/// The value of a field with wire type `wt` at `i`; meaningful only where
/// `value_end` accepts the field.
pub open spec fn value_at(s: Seq<u8>, i: int, wt: int) -> WireValue {
    if wt == 0 {
        match varint_at(s, i) {
            Some((v, j)) => WireValue::Uint(v),
            None => WireValue::Uint(0),
        }
    } else if wt == 1 {
        WireValue::Fixed64(s.subrange(i, i + 8))
    } else if wt == 2 {
        match varint_at(s, i) {
            Some((n, j)) => WireValue::Chunk(s.subrange(j, j + n)),
            None => WireValue::Chunk(Seq::empty()),
        }
    } else {
        WireValue::Fixed32(s.subrange(i, i + 4))
    }
}

/// Prepends a field to a field sequence, keeping `None` as `None`.
pub open spec fn cons_field(field: (int, WireValue), rest: Option<Seq<(int, WireValue)>>) -> Option<
    Seq<(int, WireValue)>,
> {
    match rest {
        Some(fields) => Some(seq![field] + fields),
        None => None,
    }
}

/// The fields of a message read from position `i`, each a field number with
/// its value; `None` on any malformed field. `fuel` bounds the field count.
pub open spec fn fields_at(s: Seq<u8>, i: int, fuel: int) -> Option<Seq<(int, WireValue)>>
    decreases fuel,
{
    if i == s.len() {
        Some(Seq::empty())
    } else if fuel <= 0 {
        None
    } else {
        match varint_at(s, i) {
            None => None,
            Some((key, j)) => {
                let num = key / 8;
                let wt = key % 8;
                if num == 0 {
                    None
                } else {
                    match value_end(s, j, wt) {
                        None => None,
                        Some(end) => cons_field(
                            (num, value_at(s, j, wt)),
                            fields_at(s, end, fuel - 1),
                        ),
                    }
                }
            },
        }
    }
}

/// The fields of the whole message `s`, or `None` when it is malformed.
pub open spec fn message_fields(s: Seq<u8>) -> Option<Seq<(int, WireValue)>> {
    fields_at(s, 0, s.len() as int + 1)
}

/// A well-formed field value ends past its start and within the message.
pub proof fn lemma_value_end_advances(s: Seq<u8>, i: int, wt: int)
    requires
        0 <= i <= s.len(),
        value_end(s, i, wt) is Some,
    ensures
        i < value_end(s, i, wt).unwrap() <= s.len(),
{
    if wt == 0 || wt == 2 {
        lemma_varint_at_advances(s, i);
    }
}

/// `fields_at` does not depend on the fuel, once the fuel exceeds the number
/// of bytes left.
pub proof fn lemma_fields_at_fuel(s: Seq<u8>, i: int, f1: int, f2: int)
    requires
        0 <= i <= s.len(),
        f1 > s.len() - i,
        f2 > s.len() - i,
    ensures
        fields_at(s, i, f1) == fields_at(s, i, f2),
    decreases s.len() - i,
{
    if i < s.len() {
        match varint_at(s, i) {
            None => {},
            Some((key, j)) => {
                lemma_varint_at_advances(s, i);
                let wt = key % 8;
                match value_end(s, j, wt) {
                    None => {},
                    Some(end) => {
                        lemma_value_end_advances(s, j, wt);
                        lemma_fields_at_fuel(s, end, f1 - 1, f2 - 1);
                    },
                }
            },
        }
    }
}

/// Decomposition of a prepended field sequence.
pub proof fn lemma_cons_parts(field: (int, WireValue), fields: Seq<(int, WireValue)>)
    ensures
        (seq![field] + fields).len() == fields.len() + 1,
        (seq![field] + fields)[0] == field,
        (seq![field] + fields).drop_first() == fields,
{
    assert((seq![field] + fields).drop_first() =~= fields);
}

/// One step of the field model at a known key: with the key varint and its
/// field number fixed, the fields of the message are `None` on a malformed
/// value, and otherwise the value at the key prepended to the fields past it.
pub proof fn lemma_fields_at_known(s: Seq<u8>, pos: int, fuel: int, num: int, wt: int, vpos: int)
    requires
        0 <= pos < s.len(),
        fuel == s.len() - pos + 1,
        varint_at(s, pos) matches Some(key_next) && key_next.0 / 8 == num && key_next.0 % 8 == wt
            && key_next.1 == vpos,
        num >= 1,
    ensures
        value_end(s, vpos, wt) is None ==> fields_at(s, pos, fuel) is None,
        value_end(s, vpos, wt) matches Some(end) ==> {
            let field = (num, value_at(s, vpos, wt));
            let rest = fields_at(s, end, s.len() - end + 1);
            &&& fields_at(s, pos, fuel) == cons_field(field, rest)
            &&& fields_at(s, pos, fuel) matches Some(fields) ==> fields.len() == rest.unwrap().len()
                + 1 && fields[0] == field && fields.drop_first() == rest.unwrap()
        },
{
    lemma_varint_at_advances(s, pos);
    match value_end(s, vpos, wt) {
        None => {},
        Some(end) => {
            lemma_value_end_advances(s, vpos, wt);
            lemma_fields_at_fuel(s, end, fuel - 1, s.len() - end + 1);
            let rest = fields_at(s, end, s.len() - end + 1);
            if rest is Some {
                lemma_cons_parts((num, value_at(s, vpos, wt)), rest.unwrap());
            }
        },
    }
}

/// The varint values packed one after another from position `i` to the end.
/// `None` on a malformed varint. `fuel` bounds the count.
pub open spec fn varints_in(s: Seq<u8>, i: int, fuel: int) -> Option<Seq<int>>
    decreases fuel,
{
    if i == s.len() {
        Some(Seq::empty())
    } else if fuel <= 0 {
        None
    } else {
        match varint_at(s, i) {
            None => None,
            Some((v, j)) => match varints_in(s, j, fuel - 1) {
                Some(rest) => Some(seq![v] + rest),
                None => None,
            },
        }
    }
}

/// The varint values packed into the whole chunk `s`.
pub open spec fn packed_varints(s: Seq<u8>) -> Option<Seq<int>> {
    varints_in(s, 0, s.len() as int + 1)
}

/// `varints_in` does not depend on the fuel, once the fuel exceeds the
/// number of bytes left.
pub proof fn lemma_varints_in_fuel(s: Seq<u8>, i: int, f1: int, f2: int)
    requires
        0 <= i <= s.len(),
        f1 > s.len() - i,
        f2 > s.len() - i,
    ensures
        varints_in(s, i, f1) == varints_in(s, i, f2),
    decreases s.len() - i,
{
    if i < s.len() {
        match varint_at(s, i) {
            None => {},
            Some((v, j)) => {
                lemma_varint_at_advances(s, i);
                lemma_varints_in_fuel(s, j, f1 - 1, f2 - 1);
            },
        }
    }
}

proof fn lemma_pow128_values()
    ensures
        pow128(8) == 0x100_0000_0000_0000,
        pow128(9) == 0x8000_0000_0000_0000,
{
    reveal_with_fuel(pow128, 11);
}

/// Reads the varint at `pos`, returning its value and the position just past
/// it; fails exactly when the wire model rejects the varint.
pub(crate) fn read_varint(s: &[u8], pos: usize) -> (r: Result<(u64, usize), WireFault>)
    requires
        pos <= s@.len(),
    ensures
        match r {
            Ok((v, end)) => varint_at(s@, pos as int) == Some((v as int, end as int)) && pos < end
                <= s@.len(),
            Err(_) => varint_at(s@, pos as int) is None,
        },
{
    let len = s.len();
    let mut value: u64 = 0;
    let mut multiplier: u64 = 1;
    let mut k: usize = 0;
    loop
        invariant
            len == s@.len(),
            pos <= len,
            0 <= k <= 9,
            pos + k <= len,
            multiplier == pow128(k as int),
            value as int == varint_value(s@, pos as int, pos + k),
            value < multiplier,
            varint_end(s@, pos as int, 10) == varint_end(s@, pos + k, 10 - k),
        decreases 10 - k,
    {
        proof {
            lemma_pow128_values();
            lemma_pow128_increases(k as int, 9);
        }
        if len - pos <= k {
            // the varint runs past the end of the message
            assert(varint_end(s@, pos + k, 10 - k) is None);
            return Err(WireFault::Truncated);
        }
        let b = s[pos + k];
        let group = b % 128;
        if b < 128 {
            proof {
                assert(varint_end(s@, pos + k, 10 - k) == Some(pos + k + 1));
                lemma_varint_value_snoc(s@, pos as int, pos + k);
            }
            if k == 9 {
                if group > 1 {
                    // the tenth group would push the value past 64 bits
                    proof {
                        assert((group as int) * (multiplier as int) >= 2 * 0x8000_0000_0000_0000)
                            by (nonlinear_arith)
                            requires
                                group >= 2,
                                multiplier == 0x8000_0000_0000_0000,
                        ;
                        assert(varint_value(s@, pos as int, pos + k + 1) >= 0x1_0000_0000_0000_0000);
                    }
                    return Err(WireFault::InvalidVarint);
                }
                proof {
                    assert((group as int) * (multiplier as int) <= multiplier) by (nonlinear_arith)
                        requires
                            0 <= group <= 1,
                            multiplier >= 0,
                    ;
                }
                let result = value + (group as u64) * multiplier;
                return Ok((result, pos + k + 1));
            }
            proof {
                lemma_pow128_increases(k as int, 8);
                assert((group as int) * (multiplier as int) <= 127 * multiplier)
                    by (nonlinear_arith)
                    requires
                        group <= 127,
                        multiplier >= 0,
                ;
            }
            let result = value + (group as u64) * multiplier;
            return Ok((result, pos + k + 1));
        } else if k == 9 {
            // continuation past the tenth byte
            assert(varint_end(s@, pos + k, 10 - k) == varint_end(s@, pos + k + 1, 9 - k));
            assert(varint_end(s@, pos + k + 1, 9 - k) is None);
            return Err(WireFault::InvalidVarint);
        }
        proof {
            assert(varint_end(s@, pos + k, 10 - k) == varint_end(s@, pos + k + 1, 10 - (k + 1)));
            lemma_varint_value_snoc(s@, pos as int, pos + k);
            lemma_pow128_increases(k as int, 8);
            assert((group as int) * (multiplier as int) <= 127 * multiplier) by (nonlinear_arith)
                requires
                    group <= 127,
                    multiplier >= 0,
            ;
        }
        value = value + (group as u64) * multiplier;
        multiplier = multiplier * 128;
        k = k + 1;
        proof {
            lemma_varint_value_bound(s@, pos as int, pos + k);
        }
    }
}

/// Reads the key of the field at `pos`, returning its field number, wire
/// type and the position of its value; rejects field number zero.
pub(crate) fn read_key(s: &[u8], pos: usize) -> (r: Result<(u64, u64, usize), WireFault>)
    requires
        pos <= s@.len(),
    ensures
        match r {
            Ok((num, wt, next)) => {
                &&& varint_at(s@, pos as int) matches Some(key_next) && num as int == key_next.0
                    / 8 && wt as int == key_next.0 % 8 && next as int == key_next.1
                &&& num >= 1
                &&& pos < next <= s@.len()
            },
            Err(_) => varint_at(s@, pos as int) is None || varint_at(
                s@,
                pos as int,
            ).unwrap().0 / 8 == 0,
        },
{
    let (key, next) = match read_varint(s, pos) {
        Ok(key_next) => key_next,
        Err(fault) => {
            return Err(fault);
        },
    };
    let num = key / 8;
    let wt = key % 8;
    if num == 0 {
        Err(WireFault::InvalidKey)
    } else {
        Ok((num, wt, next))
    }
}

/// Reads the bounds of the length-delimited chunk at `pos`: the positions of
/// its first byte and just past its last.
pub(crate) fn read_chunk_bounds(s: &[u8], pos: usize) -> (r: Result<(usize, usize), WireFault>)
    requires
        pos <= s@.len(),
    ensures
        match r {
            Ok((start, end)) => {
                &&& pos < start <= end <= s@.len()
                &&& value_end(s@, pos as int, 2) == Some(end as int)
                &&& value_at(s@, pos as int, 2) == WireValue::Chunk(
                    s@.subrange(start as int, end as int),
                )
            },
            Err(_) => value_end(s@, pos as int, 2) is None,
        },
{
    let (n, j) = match read_varint(s, pos) {
        Ok(n_j) => n_j,
        Err(fault) => {
            return Err(fault);
        },
    };
    if n <= (s.len() - j) as u64 {
        Ok((j, j + (n as usize)))
    } else {
        Err(WireFault::BadLength)
    }
}

/// Skips the value of a field with wire type `wt` at `pos`, returning the
/// position just past it.
pub(crate) fn skip_value(s: &[u8], pos: usize, wt: u64) -> (r: Result<usize, WireFault>)
    requires
        pos <= s@.len(),
    ensures
        match r {
            Ok(end) => pos <= end <= s@.len() && value_end(s@, pos as int, wt as int) == Some(
                end as int,
            ),
            Err(_) => value_end(s@, pos as int, wt as int) is None,
        },
{
    if wt == 0 {
        match read_varint(s, pos) {
            Ok((_value, end)) => Ok(end),
            Err(fault) => Err(fault),
        }
    } else if wt == 1 {
        if s.len() - pos >= 8 {
            Ok(pos + 8)
        } else {
            Err(WireFault::Truncated)
        }
    } else if wt == 2 {
        match read_chunk_bounds(s, pos) {
            Ok((_start, end)) => Ok(end),
            Err(fault) => Err(fault),
        }
    } else if wt == 5 {
        if s.len() - pos >= 4 {
            Ok(pos + 4)
        } else {
            Err(WireFault::Truncated)
        }
    } else {
        Err(WireFault::InvalidKey)
    }
}

/// A varint value truncated to a signed 32-bit scalar, two's complement.
pub open spec fn int32_of(v: int) -> int {
    let low = v % 0x1_0000_0000;
    if low >= 0x8000_0000 {
        low - 0x1_0000_0000
    } else {
        low
    }
}

/// A varint value reinterpreted as a signed 64-bit scalar, two's complement.
pub open spec fn int64_of(v: int) -> int {
    if v >= 0x8000_0000_0000_0000 {
        v - 0x1_0000_0000_0000_0000
    } else {
        v
    }
}

/// A varint value truncated to an unsigned 32-bit scalar.
pub open spec fn uint32_of(v: int) -> int {
    v % 0x1_0000_0000
}

/// Zigzag decoding of a 64-bit varint value: even values map to `v / 2`, odd
/// values to `-(v + 1) / 2`.
pub open spec fn sint64_of(v: int) -> int {
    if v % 2 == 0 {
        v / 2
    } else {
        -((v + 1) / 2)
    }
}

/// Zigzag decoding of a varint value truncated to 32 bits.
pub open spec fn sint32_of(v: int) -> int {
    let z = v % 0x1_0000_0000;
    if z % 2 == 0 {
        z / 2
    } else {
        -((z + 1) / 2)
    }
}

/// A varint value truncated to a signed 32-bit scalar, as that scalar.
pub open spec fn spec_int32(v: int) -> i32 {
    int32_of(v) as i32
}

/// A varint value reinterpreted as a signed 64-bit scalar, as that scalar.
pub open spec fn spec_int64(v: int) -> i64 {
    int64_of(v) as i64
}

/// A varint value truncated to an unsigned 32-bit scalar, as that scalar.
pub open spec fn spec_uint32(v: int) -> u32 {
    uint32_of(v) as u32
}

/// A zigzag-decoded 64-bit varint value, as the scalar it lands in.
pub open spec fn spec_sint64(v: int) -> i64 {
    sint64_of(v) as i64
}

/// A zigzag-decoded varint value truncated to 32 bits, as that scalar.
pub open spec fn spec_sint32(v: int) -> i32 {
    sint32_of(v) as i32
}

/// A packed run of varint values decoded as `sint64` scalars.
pub open spec fn sint64_seq(vs: Seq<int>) -> Seq<i64> {
    vs.map_values(|v: int| spec_sint64(v))
}

/// A packed run of varint values decoded as `sint32` scalars.
pub open spec fn sint32_seq(vs: Seq<int>) -> Seq<i32> {
    vs.map_values(|v: int| spec_sint32(v))
}

/// A packed run of varint values decoded as `int32` scalars.
pub open spec fn int32_seq(vs: Seq<int>) -> Seq<i32> {
    vs.map_values(|v: int| spec_int32(v))
}

/// A packed run of varint values decoded as `uint32` scalars.
pub open spec fn uint32_seq(vs: Seq<int>) -> Seq<u32> {
    vs.map_values(|v: int| spec_uint32(v))
}

/// A packed run of varint values decoded as booleans.
pub open spec fn bool_seq(vs: Seq<int>) -> Seq<bool> {
    vs.map_values(|v: int| v != 0)
}

/// Decodes an `int32` scalar out of a varint value.
pub(crate) fn int32_from_varint(v: u64) -> (r: i32)
    ensures
        r as int == int32_of(v as int),
        r == spec_int32(v as int),
{
    let low: u64 = v % 0x1_0000_0000;
    if low >= 0x8000_0000 {
        ((low as i64) - 0x1_0000_0000) as i32
    } else {
        low as i32
    }
}

/// Decodes an `int64` scalar out of a varint value.
pub(crate) fn int64_from_varint(v: u64) -> (r: i64)
    ensures
        r as int == int64_of(v as int),
        r == spec_int64(v as int),
{
    if v >= 0x8000_0000_0000_0000 {
        ((v as i128) - 0x1_0000_0000_0000_0000i128) as i64
    } else {
        v as i64
    }
}

/// Decodes a `uint32` scalar out of a varint value.
pub(crate) fn uint32_from_varint(v: u64) -> (r: u32)
    ensures
        r as int == uint32_of(v as int),
        r == spec_uint32(v as int),
{
    (v % 0x1_0000_0000) as u32
}

/// Decodes a zigzag-coded `sint64` scalar out of a varint value.
pub(crate) fn sint64_from_varint(v: u64) -> (r: i64)
    ensures
        r as int == sint64_of(v as int),
        r == spec_sint64(v as int),
{
    if v % 2 == 0 {
        (v / 2) as i64
    } else {
        (-(((v as i128) + 1) / 2)) as i64
    }
}

/// Decodes a zigzag-coded `sint32` scalar out of a varint value.
pub(crate) fn sint32_from_varint(v: u64) -> (r: i32)
    ensures
        r as int == sint32_of(v as int),
        r == spec_sint32(v as int),
{
    let z: u64 = v % 0x1_0000_0000;
    if z % 2 == 0 {
        (z / 2) as i32
    } else {
        (-(((z as i64) + 1) / 2)) as i32
    }
}

} // verus!
