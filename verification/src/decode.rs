//! Decoding the typed blocks out of decompressed blob bytes.
//!
//! The message shapes come from the format's versioned schema. Every parser
//! is verified against a specification-level model of its message: a fold
//! over the wire field model, `None` on any malformed field, a known field
//! of the wrong wire type, a packed run with a malformed varint, or a string
//! field that is not UTF-8. Unknown fields are skipped.

use crate::error::WireFault;
use crate::pbf;
use crate::tags::utf8_from_bytes;
use crate::wire::bool_seq;
use crate::wire::fields_at;
use crate::wire::int32_from_varint;
use crate::wire::int32_seq;
use crate::wire::int64_from_varint;
use crate::wire::lemma_fields_at_known;
use crate::wire::lemma_varints_in_fuel;
use crate::wire::message_fields;
use crate::wire::packed_varints;
use crate::wire::read_chunk_bounds;
use crate::wire::read_key;
use crate::wire::read_varint;
use crate::wire::sint32_from_varint;
use crate::wire::sint32_seq;
use crate::wire::sint64_from_varint;
use crate::wire::sint64_seq;
use crate::wire::skip_value;
use crate::wire::spec_int32;
use crate::wire::spec_int64;
use crate::wire::spec_sint32;
use crate::wire::spec_sint64;
use crate::wire::spec_uint32;
use crate::wire::uint32_from_varint;
use crate::wire::uint32_seq;
use crate::wire::value_at;
use crate::wire::value_end;
use crate::wire::varints_in;
use crate::wire::WireValue;
use vstd::prelude::*;
use vstd::slice::slice_subrange;
use vstd::utf8::decode_utf8;
use vstd::utf8::valid_utf8;

verus! {

/// Decodes a string field, which must hold valid UTF-8.
fn utf8_field(chunk: &[u8]) -> (r: Result<String, WireFault>)
    ensures
        r matches Ok(text) ==> valid_utf8(chunk@) && text@ == decode_utf8(chunk@),
        r is Err ==> !valid_utf8(chunk@),
{
    match utf8_from_bytes(chunk) {
        Some(text) => Ok(text.to_owned()),
        None => Err(WireFault::InvalidUtf8),
    }
}

/// Appends the zigzag-coded 64-bit values packed into `chunk`.
fn packed_sint64(chunk: &[u8], out: &mut Vec<i64>) -> (r: Result<(), WireFault>)
    ensures
        match r {
            Ok(()) => packed_varints(chunk@) matches Some(vs) && final(out)@ == old(out)@
                + sint64_seq(vs),
            Err(_) => packed_varints(chunk@) is None,
        },
{
    let len = chunk.len();
    let mut pos: usize = 0;
    let ghost mut done: Seq<int> = Seq::empty();
    proof {
        assert(sint64_seq(done) =~= Seq::<i64>::empty());
        assert(out@ =~= old(out)@ + sint64_seq(done));
    }
    while pos < len
        invariant
            pos <= len,
            len == chunk@.len(),
            out@ == old(out)@ + sint64_seq(done),
            varints_in(chunk@, pos as int, len - pos + 1) matches Some(rest) ==> packed_varints(
                chunk@,
            ) == Some(done + rest),
            varints_in(chunk@, pos as int, len - pos + 1) is None ==> packed_varints(
                chunk@,
            ) is None,
        decreases len - pos,
    {
        let (v, next) = match read_varint(chunk, pos) {
            Ok(varint) => varint,
            Err(fault) => {
                assert(varints_in(chunk@, pos as int, len - pos + 1) is None);
                return Err(fault);
            },
        };
        out.push(sint64_from_varint(v));
        proof {
            lemma_varints_in_fuel(chunk@, next as int, len - pos, len - next + 1);
            let rest_opt = varints_in(chunk@, next as int, len - next + 1);
            assert(varints_in(chunk@, pos as int, len - pos + 1) == (match rest_opt {
                Some(rest) => Some(seq![v as int] + rest),
                None => None,
            }));
            let prev_done = done;
            done = done.push(v as int);
            assert(done =~= prev_done + seq![v as int]);
            assert(sint64_seq(done) =~= sint64_seq(prev_done).push(spec_sint64(v as int)));
            assert(out@ =~= old(out)@ + sint64_seq(done));
            if rest_opt is Some {
                assert(prev_done + (seq![v as int] + rest_opt.unwrap()) =~= done
                    + rest_opt.unwrap());
            }
        }
        pos = next;
    }
    proof {
        assert(varints_in(chunk@, pos as int, len - pos + 1) == Some(Seq::<int>::empty()));
        assert(done + Seq::<int>::empty() =~= done);
    }
    Ok(())
}

/// Appends the zigzag-coded 32-bit values packed into `chunk`.
fn packed_sint32(chunk: &[u8], out: &mut Vec<i32>) -> (r: Result<(), WireFault>)
    ensures
        match r {
            Ok(()) => packed_varints(chunk@) matches Some(vs) && final(out)@ == old(out)@
                + sint32_seq(vs),
            Err(_) => packed_varints(chunk@) is None,
        },
{
    let len = chunk.len();
    let mut pos: usize = 0;
    let ghost mut done: Seq<int> = Seq::empty();
    proof {
        assert(sint32_seq(done) =~= Seq::<i32>::empty());
        assert(out@ =~= old(out)@ + sint32_seq(done));
    }
    while pos < len
        invariant
            pos <= len,
            len == chunk@.len(),
            out@ == old(out)@ + sint32_seq(done),
            varints_in(chunk@, pos as int, len - pos + 1) matches Some(rest) ==> packed_varints(
                chunk@,
            ) == Some(done + rest),
            varints_in(chunk@, pos as int, len - pos + 1) is None ==> packed_varints(
                chunk@,
            ) is None,
        decreases len - pos,
    {
        let (v, next) = match read_varint(chunk, pos) {
            Ok(varint) => varint,
            Err(fault) => {
                assert(varints_in(chunk@, pos as int, len - pos + 1) is None);
                return Err(fault);
            },
        };
        out.push(sint32_from_varint(v));
        proof {
            lemma_varints_in_fuel(chunk@, next as int, len - pos, len - next + 1);
            let rest_opt = varints_in(chunk@, next as int, len - next + 1);
            assert(varints_in(chunk@, pos as int, len - pos + 1) == (match rest_opt {
                Some(rest) => Some(seq![v as int] + rest),
                None => None,
            }));
            let prev_done = done;
            done = done.push(v as int);
            assert(done =~= prev_done + seq![v as int]);
            assert(sint32_seq(done) =~= sint32_seq(prev_done).push(spec_sint32(v as int)));
            assert(out@ =~= old(out)@ + sint32_seq(done));
            if rest_opt is Some {
                assert(prev_done + (seq![v as int] + rest_opt.unwrap()) =~= done
                    + rest_opt.unwrap());
            }
        }
        pos = next;
    }
    proof {
        assert(varints_in(chunk@, pos as int, len - pos + 1) == Some(Seq::<int>::empty()));
        assert(done + Seq::<int>::empty() =~= done);
    }
    Ok(())
}

/// Appends the two's-complement 32-bit values packed into `chunk`.
fn packed_int32(chunk: &[u8], out: &mut Vec<i32>) -> (r: Result<(), WireFault>)
    ensures
        match r {
            Ok(()) => packed_varints(chunk@) matches Some(vs) && final(out)@ == old(out)@
                + int32_seq(vs),
            Err(_) => packed_varints(chunk@) is None,
        },
{
    let len = chunk.len();
    let mut pos: usize = 0;
    let ghost mut done: Seq<int> = Seq::empty();
    proof {
        assert(int32_seq(done) =~= Seq::<i32>::empty());
        assert(out@ =~= old(out)@ + int32_seq(done));
    }
    while pos < len
        invariant
            pos <= len,
            len == chunk@.len(),
            out@ == old(out)@ + int32_seq(done),
            varints_in(chunk@, pos as int, len - pos + 1) matches Some(rest) ==> packed_varints(
                chunk@,
            ) == Some(done + rest),
            varints_in(chunk@, pos as int, len - pos + 1) is None ==> packed_varints(
                chunk@,
            ) is None,
        decreases len - pos,
    {
        let (v, next) = match read_varint(chunk, pos) {
            Ok(varint) => varint,
            Err(fault) => {
                assert(varints_in(chunk@, pos as int, len - pos + 1) is None);
                return Err(fault);
            },
        };
        out.push(int32_from_varint(v));
        proof {
            lemma_varints_in_fuel(chunk@, next as int, len - pos, len - next + 1);
            let rest_opt = varints_in(chunk@, next as int, len - next + 1);
            assert(varints_in(chunk@, pos as int, len - pos + 1) == (match rest_opt {
                Some(rest) => Some(seq![v as int] + rest),
                None => None,
            }));
            let prev_done = done;
            done = done.push(v as int);
            assert(done =~= prev_done + seq![v as int]);
            assert(int32_seq(done) =~= int32_seq(prev_done).push(spec_int32(v as int)));
            assert(out@ =~= old(out)@ + int32_seq(done));
            if rest_opt is Some {
                assert(prev_done + (seq![v as int] + rest_opt.unwrap()) =~= done
                    + rest_opt.unwrap());
            }
        }
        pos = next;
    }
    proof {
        assert(varints_in(chunk@, pos as int, len - pos + 1) == Some(Seq::<int>::empty()));
        assert(done + Seq::<int>::empty() =~= done);
    }
    Ok(())
}

/// Appends the unsigned 32-bit values packed into `chunk`.
fn packed_uint32(chunk: &[u8], out: &mut Vec<u32>) -> (r: Result<(), WireFault>)
    ensures
        match r {
            Ok(()) => packed_varints(chunk@) matches Some(vs) && final(out)@ == old(out)@
                + uint32_seq(vs),
            Err(_) => packed_varints(chunk@) is None,
        },
{
    let len = chunk.len();
    let mut pos: usize = 0;
    let ghost mut done: Seq<int> = Seq::empty();
    proof {
        assert(uint32_seq(done) =~= Seq::<u32>::empty());
        assert(out@ =~= old(out)@ + uint32_seq(done));
    }
    while pos < len
        invariant
            pos <= len,
            len == chunk@.len(),
            out@ == old(out)@ + uint32_seq(done),
            varints_in(chunk@, pos as int, len - pos + 1) matches Some(rest) ==> packed_varints(
                chunk@,
            ) == Some(done + rest),
            varints_in(chunk@, pos as int, len - pos + 1) is None ==> packed_varints(
                chunk@,
            ) is None,
        decreases len - pos,
    {
        let (v, next) = match read_varint(chunk, pos) {
            Ok(varint) => varint,
            Err(fault) => {
                assert(varints_in(chunk@, pos as int, len - pos + 1) is None);
                return Err(fault);
            },
        };
        out.push(uint32_from_varint(v));
        proof {
            lemma_varints_in_fuel(chunk@, next as int, len - pos, len - next + 1);
            let rest_opt = varints_in(chunk@, next as int, len - next + 1);
            assert(varints_in(chunk@, pos as int, len - pos + 1) == (match rest_opt {
                Some(rest) => Some(seq![v as int] + rest),
                None => None,
            }));
            let prev_done = done;
            done = done.push(v as int);
            assert(done =~= prev_done + seq![v as int]);
            assert(uint32_seq(done) =~= uint32_seq(prev_done).push(spec_uint32(v as int)));
            assert(out@ =~= old(out)@ + uint32_seq(done));
            if rest_opt is Some {
                assert(prev_done + (seq![v as int] + rest_opt.unwrap()) =~= done
                    + rest_opt.unwrap());
            }
        }
        pos = next;
    }
    proof {
        assert(varints_in(chunk@, pos as int, len - pos + 1) == Some(Seq::<int>::empty()));
        assert(done + Seq::<int>::empty() =~= done);
    }
    Ok(())
}

/// Appends the boolean values packed into `chunk`.
fn packed_bool(chunk: &[u8], out: &mut Vec<bool>) -> (r: Result<(), WireFault>)
    ensures
        match r {
            Ok(()) => packed_varints(chunk@) matches Some(vs) && final(out)@ == old(out)@
                + bool_seq(vs),
            Err(_) => packed_varints(chunk@) is None,
        },
{
    let len = chunk.len();
    let mut pos: usize = 0;
    let ghost mut done: Seq<int> = Seq::empty();
    proof {
        assert(bool_seq(done) =~= Seq::<bool>::empty());
        assert(out@ =~= old(out)@ + bool_seq(done));
    }
    while pos < len
        invariant
            pos <= len,
            len == chunk@.len(),
            out@ == old(out)@ + bool_seq(done),
            varints_in(chunk@, pos as int, len - pos + 1) matches Some(rest) ==> packed_varints(
                chunk@,
            ) == Some(done + rest),
            varints_in(chunk@, pos as int, len - pos + 1) is None ==> packed_varints(
                chunk@,
            ) is None,
        decreases len - pos,
    {
        let (v, next) = match read_varint(chunk, pos) {
            Ok(varint) => varint,
            Err(fault) => {
                assert(varints_in(chunk@, pos as int, len - pos + 1) is None);
                return Err(fault);
            },
        };
        out.push(v != 0);
        proof {
            lemma_varints_in_fuel(chunk@, next as int, len - pos, len - next + 1);
            let rest_opt = varints_in(chunk@, next as int, len - next + 1);
            assert(varints_in(chunk@, pos as int, len - pos + 1) == (match rest_opt {
                Some(rest) => Some(seq![v as int] + rest),
                None => None,
            }));
            let prev_done = done;
            done = done.push(v as int);
            assert(done =~= prev_done + seq![v as int]);
            assert(bool_seq(done) =~= bool_seq(prev_done).push(v as int != 0));
            assert(out@ =~= old(out)@ + bool_seq(done));
            if rest_opt is Some {
                assert(prev_done + (seq![v as int] + rest_opt.unwrap()) =~= done
                    + rest_opt.unwrap());
            }
        }
        pos = next;
    }
    proof {
        assert(varints_in(chunk@, pos as int, len - pos + 1) == Some(Seq::<int>::empty()));
        assert(done + Seq::<int>::empty() =~= done);
    }
    Ok(())
}


/// Reads a `sint64` column field in either of its encodings — a packed
/// chunk, or one scalar value — appending what it holds.
fn packed_or_single_sint64(s: &[u8], vpos: usize, wt: u64, out: &mut Vec<i64>) -> (r: Result<
    usize,
    WireFault,
>)
    requires
        vpos <= s@.len(),
    ensures
        match r {
            Ok(end) => {
                &&& vpos < end <= s@.len()
                &&& value_end(s@, vpos as int, wt as int) == Some(end as int)
                &&& match value_at(s@, vpos as int, wt as int) {
                    WireValue::Chunk(bytes) => packed_varints(bytes) matches Some(vs)
                        && final(out)@ == old(out)@ + sint64_seq(vs),
                    WireValue::Uint(v) => final(out)@ == old(out)@.push(spec_sint64(v)),
                    _ => false,
                }
            },
            Err(_) => value_end(s@, vpos as int, wt as int) is None || (match value_at(
                s@,
                vpos as int,
                wt as int,
            ) {
                WireValue::Chunk(bytes) => packed_varints(bytes) is None,
                WireValue::Uint(v) => false,
                _ => true,
            }),
        },
{
    if wt == 2 {
        let (start, end) = match read_chunk_bounds(s, vpos) {
            Ok(bounds) => bounds,
            Err(fault) => {
                return Err(fault);
            },
        };
        match packed_sint64(slice_subrange(s, start, end), out) {
            Ok(()) => Ok(end),
            Err(fault) => Err(fault),
        }
    } else if wt == 0 {
        let (v, end) = match read_varint(s, vpos) {
            Ok(varint) => varint,
            Err(fault) => {
                return Err(fault);
            },
        };
        out.push(sint64_from_varint(v));
        Ok(end)
    } else {
        Err(WireFault::InvalidKey)
    }
}

/// Reads a `sint32` column field in either of its encodings — a packed
/// chunk, or one scalar value — appending what it holds.
fn packed_or_single_sint32(s: &[u8], vpos: usize, wt: u64, out: &mut Vec<i32>) -> (r: Result<
    usize,
    WireFault,
>)
    requires
        vpos <= s@.len(),
    ensures
        match r {
            Ok(end) => {
                &&& vpos < end <= s@.len()
                &&& value_end(s@, vpos as int, wt as int) == Some(end as int)
                &&& match value_at(s@, vpos as int, wt as int) {
                    WireValue::Chunk(bytes) => packed_varints(bytes) matches Some(vs)
                        && final(out)@ == old(out)@ + sint32_seq(vs),
                    WireValue::Uint(v) => final(out)@ == old(out)@.push(spec_sint32(v)),
                    _ => false,
                }
            },
            Err(_) => value_end(s@, vpos as int, wt as int) is None || (match value_at(
                s@,
                vpos as int,
                wt as int,
            ) {
                WireValue::Chunk(bytes) => packed_varints(bytes) is None,
                WireValue::Uint(v) => false,
                _ => true,
            }),
        },
{
    if wt == 2 {
        let (start, end) = match read_chunk_bounds(s, vpos) {
            Ok(bounds) => bounds,
            Err(fault) => {
                return Err(fault);
            },
        };
        match packed_sint32(slice_subrange(s, start, end), out) {
            Ok(()) => Ok(end),
            Err(fault) => Err(fault),
        }
    } else if wt == 0 {
        let (v, end) = match read_varint(s, vpos) {
            Ok(varint) => varint,
            Err(fault) => {
                return Err(fault);
            },
        };
        out.push(sint32_from_varint(v));
        Ok(end)
    } else {
        Err(WireFault::InvalidKey)
    }
}

/// Reads a `int32` column field in either of its encodings — a packed
/// chunk, or one scalar value — appending what it holds.
fn packed_or_single_int32(s: &[u8], vpos: usize, wt: u64, out: &mut Vec<i32>) -> (r: Result<
    usize,
    WireFault,
>)
    requires
        vpos <= s@.len(),
    ensures
        match r {
            Ok(end) => {
                &&& vpos < end <= s@.len()
                &&& value_end(s@, vpos as int, wt as int) == Some(end as int)
                &&& match value_at(s@, vpos as int, wt as int) {
                    WireValue::Chunk(bytes) => packed_varints(bytes) matches Some(vs)
                        && final(out)@ == old(out)@ + int32_seq(vs),
                    WireValue::Uint(v) => final(out)@ == old(out)@.push(spec_int32(v)),
                    _ => false,
                }
            },
            Err(_) => value_end(s@, vpos as int, wt as int) is None || (match value_at(
                s@,
                vpos as int,
                wt as int,
            ) {
                WireValue::Chunk(bytes) => packed_varints(bytes) is None,
                WireValue::Uint(v) => false,
                _ => true,
            }),
        },
{
    if wt == 2 {
        let (start, end) = match read_chunk_bounds(s, vpos) {
            Ok(bounds) => bounds,
            Err(fault) => {
                return Err(fault);
            },
        };
        match packed_int32(slice_subrange(s, start, end), out) {
            Ok(()) => Ok(end),
            Err(fault) => Err(fault),
        }
    } else if wt == 0 {
        let (v, end) = match read_varint(s, vpos) {
            Ok(varint) => varint,
            Err(fault) => {
                return Err(fault);
            },
        };
        out.push(int32_from_varint(v));
        Ok(end)
    } else {
        Err(WireFault::InvalidKey)
    }
}

/// Reads a `uint32` column field in either of its encodings — a packed
/// chunk, or one scalar value — appending what it holds.
fn packed_or_single_uint32(s: &[u8], vpos: usize, wt: u64, out: &mut Vec<u32>) -> (r: Result<
    usize,
    WireFault,
>)
    requires
        vpos <= s@.len(),
    ensures
        match r {
            Ok(end) => {
                &&& vpos < end <= s@.len()
                &&& value_end(s@, vpos as int, wt as int) == Some(end as int)
                &&& match value_at(s@, vpos as int, wt as int) {
                    WireValue::Chunk(bytes) => packed_varints(bytes) matches Some(vs)
                        && final(out)@ == old(out)@ + uint32_seq(vs),
                    WireValue::Uint(v) => final(out)@ == old(out)@.push(spec_uint32(v)),
                    _ => false,
                }
            },
            Err(_) => value_end(s@, vpos as int, wt as int) is None || (match value_at(
                s@,
                vpos as int,
                wt as int,
            ) {
                WireValue::Chunk(bytes) => packed_varints(bytes) is None,
                WireValue::Uint(v) => false,
                _ => true,
            }),
        },
{
    if wt == 2 {
        let (start, end) = match read_chunk_bounds(s, vpos) {
            Ok(bounds) => bounds,
            Err(fault) => {
                return Err(fault);
            },
        };
        match packed_uint32(slice_subrange(s, start, end), out) {
            Ok(()) => Ok(end),
            Err(fault) => Err(fault),
        }
    } else if wt == 0 {
        let (v, end) = match read_varint(s, vpos) {
            Ok(varint) => varint,
            Err(fault) => {
                return Err(fault);
            },
        };
        out.push(uint32_from_varint(v));
        Ok(end)
    } else {
        Err(WireFault::InvalidKey)
    }
}

/// Reads a `bool` column field in either of its encodings — a packed
/// chunk, or one scalar value — appending what it holds.
fn packed_or_single_bool(s: &[u8], vpos: usize, wt: u64, out: &mut Vec<bool>) -> (r: Result<
    usize,
    WireFault,
>)
    requires
        vpos <= s@.len(),
    ensures
        match r {
            Ok(end) => {
                &&& vpos < end <= s@.len()
                &&& value_end(s@, vpos as int, wt as int) == Some(end as int)
                &&& match value_at(s@, vpos as int, wt as int) {
                    WireValue::Chunk(bytes) => packed_varints(bytes) matches Some(vs)
                        && final(out)@ == old(out)@ + bool_seq(vs),
                    WireValue::Uint(v) => final(out)@ == old(out)@.push(v != 0),
                    _ => false,
                }
            },
            Err(_) => value_end(s@, vpos as int, wt as int) is None || (match value_at(
                s@,
                vpos as int,
                wt as int,
            ) {
                WireValue::Chunk(bytes) => packed_varints(bytes) is None,
                WireValue::Uint(v) => false,
                _ => true,
            }),
        },
{
    if wt == 2 {
        let (start, end) = match read_chunk_bounds(s, vpos) {
            Ok(bounds) => bounds,
            Err(fault) => {
                return Err(fault);
            },
        };
        match packed_bool(slice_subrange(s, start, end), out) {
            Ok(()) => Ok(end),
            Err(fault) => Err(fault),
        }
    } else if wt == 0 {
        let (v, end) = match read_varint(s, vpos) {
            Ok(varint) => varint,
            Err(fault) => {
                return Err(fault);
            },
        };
        out.push(v != 0);
        Ok(end)
    } else {
        Err(WireFault::InvalidKey)
    }
}

/// Folds the fields of a metadata record: six optional scalars.
pub open spec fn fold_info(fields: Seq<(int, WireValue)>, acc: pbf::Info) -> Option<pbf::Info>
    decreases fields.len(),
{
    if fields.len() == 0 {
        Some(acc)
    } else {
        let (num, val) = fields[0];
        let rest = fields.drop_first();
        if 1 <= num <= 6 {
            match val {
                WireValue::Uint(v) => fold_info(
                    rest,
                    if num == 1 {
                        pbf::Info { version: Some(spec_int32(v)), ..acc }
                    } else if num == 2 {
                        pbf::Info { timestamp: Some(spec_int64(v)), ..acc }
                    } else if num == 3 {
                        pbf::Info { changeset: Some(spec_int64(v)), ..acc }
                    } else if num == 4 {
                        pbf::Info { uid: Some(spec_int32(v)), ..acc }
                    } else if num == 5 {
                        pbf::Info { user_sid: Some(spec_uint32(v)), ..acc }
                    } else {
                        pbf::Info { visible: Some(v != 0), ..acc }
                    },
                ),
                _ => None,
            }
        } else {
            fold_info(rest, acc)
        }
    }
}

/// The metadata record `s` decodes to, or `None` when it is malformed.
pub open spec fn info_of(s: Seq<u8>) -> Option<pbf::Info> {
    match message_fields(s) {
        Some(fields) => fold_info(
            fields,
            pbf::Info {
                version: None,
                timestamp: None,
                changeset: None,
                uid: None,
                user_sid: None,
                visible: None,
            },
        ),
        None => None,
    }
}

/// Decodes the metadata record of a node, way or relation.
#[verifier::rlimit(60)]
fn parse_info(s: &[u8]) -> (r: Result<pbf::Info, WireFault>)
    ensures
        match r {
            Ok(msg) => info_of(s@) == Some(msg),
            Err(_) => info_of(s@) is None,
        },
{
    let len = s.len();
    let mut msg = pbf::Info {
        version: None,
        timestamp: None,
        changeset: None,
        uid: None,
        user_sid: None,
        visible: None,
    };
    let mut pos: usize = 0;
    while pos < len
        invariant
            pos <= len,
            len == s@.len(),
            (match fields_at(s@, pos as int, len - pos + 1) {
                Some(fields) => fold_info(fields, msg),
                None => None,
            }) == info_of(s@),
        decreases len - pos,
    {
        let ghost fuel: int = len - pos + 1;
        let (num, wt, vpos) = match read_key(s, pos) {
            Ok(key) => key,
            Err(fault) => {
                assert(fields_at(s@, pos as int, fuel) is None);
                return Err(fault);
            },
        };
        if 1 <= num && num <= 6 {
            if wt != 0 {
                proof {
                    lemma_fields_at_known(s@, pos as int, fuel, num as int, wt as int, vpos as int);
                }
                return Err(WireFault::InvalidKey);
            }
            let (v, end) = match read_varint(s, vpos) {
                Ok(varint) => varint,
                Err(fault) => {
                    proof {
                        lemma_fields_at_known(
                            s@,
                            pos as int,
                            fuel,
                            num as int,
                            wt as int,
                            vpos as int,
                        );
                    }
                    return Err(fault);
                },
            };
            proof {
                lemma_fields_at_known(s@, pos as int, fuel, num as int, wt as int, vpos as int);
                assert(value_at(s@, vpos as int, 0) == WireValue::Uint(v as int));
            }
            if num == 1 {
                msg.version = Some(int32_from_varint(v));
            } else if num == 2 {
                msg.timestamp = Some(int64_from_varint(v));
            } else if num == 3 {
                msg.changeset = Some(int64_from_varint(v));
            } else if num == 4 {
                msg.uid = Some(int32_from_varint(v));
            } else if num == 5 {
                msg.user_sid = Some(uint32_from_varint(v));
            } else {
                msg.visible = Some(v != 0);
            }
            pos = end;
        } else {
            let end = match skip_value(s, vpos, wt) {
                Ok(end) => end,
                Err(fault) => {
                    proof {
                        lemma_fields_at_known(
                            s@,
                            pos as int,
                            fuel,
                            num as int,
                            wt as int,
                            vpos as int,
                        );
                    }
                    return Err(fault);
                },
            };
            proof {
                lemma_fields_at_known(s@, pos as int, fuel, num as int, wt as int, vpos as int);
            }
            pos = end;
        }
    }
    assert(fields_at(s@, pos as int, 1) == Some(Seq::<(int, WireValue)>::empty()));
    Ok(msg)
}


/// Folds the fields of the bounding box of a header block over an accumulator; later occurrences of a
/// scalar win, repeated fields append, unknown fields are skipped, and a
/// known field of the wrong wire type or with a malformed value fails the
/// message.
pub open spec fn fold_header_bbox(fields: Seq<(int, WireValue)>, acc: pbf::HeaderBBox) -> Option<pbf::HeaderBBox>
    decreases fields.len(),
{
    if fields.len() == 0 {
        Some(acc)
    } else {
        let (num, val) = fields[0];
        let rest = fields.drop_first();
        if num == 1 {
            match val {
                WireValue::Uint(v) => fold_header_bbox(rest, pbf::HeaderBBox { left: spec_sint64(v), ..acc }),
                _ => None,
            }
        } else if num == 2 {
            match val {
                WireValue::Uint(v) => fold_header_bbox(rest, pbf::HeaderBBox { right: spec_sint64(v), ..acc }),
                _ => None,
            }
        } else if num == 3 {
            match val {
                WireValue::Uint(v) => fold_header_bbox(rest, pbf::HeaderBBox { top: spec_sint64(v), ..acc }),
                _ => None,
            }
        } else if num == 4 {
            match val {
                WireValue::Uint(v) => fold_header_bbox(rest, pbf::HeaderBBox { bottom: spec_sint64(v), ..acc }),
                _ => None,
            }
        } else {
            fold_header_bbox(rest, acc)
        }
    }
}

/// The bounding box of a header block `s` decodes to, or `None` when it is malformed.
pub open spec fn header_bbox_of(s: Seq<u8>) -> Option<pbf::HeaderBBox> {
    match message_fields(s) {
        Some(fields) => fold_header_bbox(fields, pbf::HeaderBBox { left: 0i64, right: 0i64, top: 0i64, bottom: 0i64 }),
        None => None,
    }
}

/// Decodes the bounding box of a header block.
#[verifier::rlimit(60)]
fn parse_header_bbox(s: &[u8]) -> (r: Result<pbf::HeaderBBox, WireFault>)
    ensures
        match r {
            Ok(msg) => header_bbox_of(s@) == Some(msg),
            Err(_) => header_bbox_of(s@) is None,
        },
{
    let len = s.len();
    let mut msg = pbf::HeaderBBox { left: 0, right: 0, top: 0, bottom: 0 };
    let mut pos: usize = 0;
    while pos < len
        invariant
            pos <= len,
            len == s@.len(),
            (match fields_at(s@, pos as int, len - pos + 1) {
                Some(fields) => fold_header_bbox(fields, msg),
                None => None,
            }) == header_bbox_of(s@),
        decreases len - pos,
    {
        let ghost fuel: int = len - pos + 1;
        let (num, wt, vpos) = match read_key(s, pos) {
            Ok(key) => key,
            Err(fault) => {
                assert(fields_at(s@, pos as int, fuel) is None);
                return Err(fault);
            },
        };
        if num == 1 {
            if wt != 0 {
                proof {
                    lemma_fields_at_known(s@, pos as int, fuel, num as int, wt as int, vpos as int);
                }
                return Err(WireFault::InvalidKey);
            }
            let (v, end) = match read_varint(s, vpos) {
                Ok(ok) => ok,
                Err(fault) => {
                    proof {
                        lemma_fields_at_known(s@, pos as int, fuel, num as int, wt as int, vpos as int);
                    }
                    return Err(fault);
                },
            };
            proof {
                lemma_fields_at_known(s@, pos as int, fuel, num as int, wt as int, vpos as int);
                assert(value_at(s@, vpos as int, 0) == WireValue::Uint(v as int));
            }
            msg.left = sint64_from_varint(v);
            pos = end;
        } else if num == 2 {
            if wt != 0 {
                proof {
                    lemma_fields_at_known(s@, pos as int, fuel, num as int, wt as int, vpos as int);
                }
                return Err(WireFault::InvalidKey);
            }
            let (v, end) = match read_varint(s, vpos) {
                Ok(ok) => ok,
                Err(fault) => {
                    proof {
                        lemma_fields_at_known(s@, pos as int, fuel, num as int, wt as int, vpos as int);
                    }
                    return Err(fault);
                },
            };
            proof {
                lemma_fields_at_known(s@, pos as int, fuel, num as int, wt as int, vpos as int);
                assert(value_at(s@, vpos as int, 0) == WireValue::Uint(v as int));
            }
            msg.right = sint64_from_varint(v);
            pos = end;
        } else if num == 3 {
            if wt != 0 {
                proof {
                    lemma_fields_at_known(s@, pos as int, fuel, num as int, wt as int, vpos as int);
                }
                return Err(WireFault::InvalidKey);
            }
            let (v, end) = match read_varint(s, vpos) {
                Ok(ok) => ok,
                Err(fault) => {
                    proof {
                        lemma_fields_at_known(s@, pos as int, fuel, num as int, wt as int, vpos as int);
                    }
                    return Err(fault);
                },
            };
            proof {
                lemma_fields_at_known(s@, pos as int, fuel, num as int, wt as int, vpos as int);
                assert(value_at(s@, vpos as int, 0) == WireValue::Uint(v as int));
            }
            msg.top = sint64_from_varint(v);
            pos = end;
        } else if num == 4 {
            if wt != 0 {
                proof {
                    lemma_fields_at_known(s@, pos as int, fuel, num as int, wt as int, vpos as int);
                }
                return Err(WireFault::InvalidKey);
            }
            let (v, end) = match read_varint(s, vpos) {
                Ok(ok) => ok,
                Err(fault) => {
                    proof {
                        lemma_fields_at_known(s@, pos as int, fuel, num as int, wt as int, vpos as int);
                    }
                    return Err(fault);
                },
            };
            proof {
                lemma_fields_at_known(s@, pos as int, fuel, num as int, wt as int, vpos as int);
                assert(value_at(s@, vpos as int, 0) == WireValue::Uint(v as int));
            }
            msg.bottom = sint64_from_varint(v);
            pos = end;
        } else {
            let end = match skip_value(s, vpos, wt) {
                Ok(ok) => ok,
                Err(fault) => {
                    proof {
                        lemma_fields_at_known(s@, pos as int, fuel, num as int, wt as int, vpos as int);
                    }
                    return Err(fault);
                },
            };
            proof {
                lemma_fields_at_known(s@, pos as int, fuel, num as int, wt as int, vpos as int);
            }
            pos = end;
        }
    }
    assert(fields_at(s@, pos as int, 1) == Some(Seq::<(int, WireValue)>::empty()));
    Ok(msg)
}

/// Folds the fields of a changeset entry over an accumulator; later occurrences of a
/// scalar win, repeated fields append, unknown fields are skipped, and a
/// known field of the wrong wire type or with a malformed value fails the
/// message.
pub open spec fn fold_changeset(fields: Seq<(int, WireValue)>, acc: pbf::ChangeSet) -> Option<pbf::ChangeSet>
    decreases fields.len(),
{
    if fields.len() == 0 {
        Some(acc)
    } else {
        let (num, val) = fields[0];
        let rest = fields.drop_first();
        if num == 1 {
            match val {
                WireValue::Uint(v) => fold_changeset(rest, pbf::ChangeSet { id: spec_int64(v), ..acc }),
                _ => None,
            }
        } else {
            fold_changeset(rest, acc)
        }
    }
}

/// The changeset entry `s` decodes to, or `None` when it is malformed.
pub open spec fn changeset_of(s: Seq<u8>) -> Option<pbf::ChangeSet> {
    match message_fields(s) {
        Some(fields) => fold_changeset(fields, pbf::ChangeSet { id: 0i64 }),
        None => None,
    }
}

/// Decodes a changeset entry.
#[verifier::rlimit(60)]
fn parse_changeset(s: &[u8]) -> (r: Result<pbf::ChangeSet, WireFault>)
    ensures
        match r {
            Ok(msg) => changeset_of(s@) == Some(msg),
            Err(_) => changeset_of(s@) is None,
        },
{
    let len = s.len();
    let mut msg = pbf::ChangeSet { id: 0 };
    let mut pos: usize = 0;
    while pos < len
        invariant
            pos <= len,
            len == s@.len(),
            (match fields_at(s@, pos as int, len - pos + 1) {
                Some(fields) => fold_changeset(fields, msg),
                None => None,
            }) == changeset_of(s@),
        decreases len - pos,
    {
        let ghost fuel: int = len - pos + 1;
        let (num, wt, vpos) = match read_key(s, pos) {
            Ok(key) => key,
            Err(fault) => {
                assert(fields_at(s@, pos as int, fuel) is None);
                return Err(fault);
            },
        };
        if num == 1 {
            if wt != 0 {
                proof {
                    lemma_fields_at_known(s@, pos as int, fuel, num as int, wt as int, vpos as int);
                }
                return Err(WireFault::InvalidKey);
            }
            let (v, end) = match read_varint(s, vpos) {
                Ok(ok) => ok,
                Err(fault) => {
                    proof {
                        lemma_fields_at_known(s@, pos as int, fuel, num as int, wt as int, vpos as int);
                    }
                    return Err(fault);
                },
            };
            proof {
                lemma_fields_at_known(s@, pos as int, fuel, num as int, wt as int, vpos as int);
                assert(value_at(s@, vpos as int, 0) == WireValue::Uint(v as int));
            }
            msg.id = int64_from_varint(v);
            pos = end;
        } else {
            let end = match skip_value(s, vpos, wt) {
                Ok(ok) => ok,
                Err(fault) => {
                    proof {
                        lemma_fields_at_known(s@, pos as int, fuel, num as int, wt as int, vpos as int);
                    }
                    return Err(fault);
                },
            };
            proof {
                lemma_fields_at_known(s@, pos as int, fuel, num as int, wt as int, vpos as int);
            }
            pos = end;
        }
    }
    assert(fields_at(s@, pos as int, 1) == Some(Seq::<(int, WireValue)>::empty()));
    Ok(msg)
}

/// Folds the fields of a string table: each field 1 chunk appends one byte
/// string; unknown fields are skipped, and a known field of the wrong wire
/// type fails the message.
pub open spec fn fold_string_table(
    fields: Seq<(int, WireValue)>,
    acc: pbf::SpecStringTable,
) -> Option<pbf::SpecStringTable>
    decreases fields.len(),
{
    if fields.len() == 0 {
        Some(acc)
    } else {
        let (num, val) = fields[0];
        let rest = fields.drop_first();
        if num == 1 {
            match val {
                WireValue::Chunk(bytes) => fold_string_table(rest, acc.push(bytes)),
                _ => None,
            }
        } else {
            fold_string_table(rest, acc)
        }
    }
}

/// The string table `s` decodes to, or `None` when it is malformed.
pub open spec fn string_table_of(s: Seq<u8>) -> Option<pbf::SpecStringTable> {
    match message_fields(s) {
        Some(fields) => fold_string_table(fields, Seq::empty()),
        None => None,
    }
}

/// Decodes the string table shared by the groups of a primitive block.
#[verifier::rlimit(60)]
fn parse_string_table(s: &[u8]) -> (r: Result<pbf::StringTable, WireFault>)
    ensures
        match r {
            Ok(msg) => string_table_of(s@) == Some(msg@),
            Err(_) => string_table_of(s@) is None,
        },
{
    let len = s.len();
    let mut msg = pbf::StringTable { s: Vec::new() };
    let mut pos: usize = 0;
    proof {
        assert(msg@ =~= Seq::<Seq<u8>>::empty());
    }
    while pos < len
        invariant
            pos <= len,
            len == s@.len(),
            (match fields_at(s@, pos as int, len - pos + 1) {
                Some(fields) => fold_string_table(fields, msg@),
                None => None,
            }) == string_table_of(s@),
        decreases len - pos,
    {
        let ghost fuel: int = len - pos + 1;
        let (num, wt, vpos) = match read_key(s, pos) {
            Ok(key) => key,
            Err(fault) => {
                assert(fields_at(s@, pos as int, fuel) is None);
                return Err(fault);
            },
        };
        if num == 1 {
            if wt != 2 {
                proof {
                    lemma_fields_at_known(s@, pos as int, fuel, num as int, wt as int, vpos as int);
                }
                return Err(WireFault::InvalidKey);
            }
            let (start, end) = match read_chunk_bounds(s, vpos) {
                Ok(ok) => ok,
                Err(fault) => {
                    proof {
                        lemma_fields_at_known(s@, pos as int, fuel, num as int, wt as int, vpos as int);
                    }
                    return Err(fault);
                },
            };
            proof {
                lemma_fields_at_known(s@, pos as int, fuel, num as int, wt as int, vpos as int);
            }
            let entry = vstd::slice::slice_to_vec(slice_subrange(s, start, end));
            let ghost before = msg@;
            msg.s.push(entry);
            proof {
                assert(msg@ =~= before.push(s@.subrange(start as int, end as int)));
            }
            pos = end;
        } else {
            let end = match skip_value(s, vpos, wt) {
                Ok(ok) => ok,
                Err(fault) => {
                    proof {
                        lemma_fields_at_known(s@, pos as int, fuel, num as int, wt as int, vpos as int);
                    }
                    return Err(fault);
                },
            };
            proof {
                lemma_fields_at_known(s@, pos as int, fuel, num as int, wt as int, vpos as int);
            }
            pos = end;
        }
    }
    assert(fields_at(s@, pos as int, 1) == Some(Seq::<(int, WireValue)>::empty()));
    Ok(msg)
}

/// Folds the fields of the metadata columns of a dense node section over an accumulator; later occurrences of a
/// scalar win, repeated fields append, unknown fields are skipped, and a
/// known field of the wrong wire type or with a malformed value fails the
/// message.
pub open spec fn fold_dense_info(fields: Seq<(int, WireValue)>, acc: pbf::SpecDenseInfo) -> Option<pbf::SpecDenseInfo>
    decreases fields.len(),
{
    if fields.len() == 0 {
        Some(acc)
    } else {
        let (num, val) = fields[0];
        let rest = fields.drop_first();
        if num == 1 {
            match val {
                WireValue::Chunk(bytes) => match packed_varints(bytes) {
                    Some(vs) => fold_dense_info(
                        rest,
                        pbf::SpecDenseInfo { version: acc.version + int32_seq(vs), ..acc },
                    ),
                    None => None,
                },
                WireValue::Uint(v) => fold_dense_info(
                    rest,
                    pbf::SpecDenseInfo { version: acc.version.push(spec_int32(v)), ..acc },
                ),
                _ => None,
            }
        } else if num == 2 {
            match val {
                WireValue::Chunk(bytes) => match packed_varints(bytes) {
                    Some(vs) => fold_dense_info(
                        rest,
                        pbf::SpecDenseInfo { timestamp: acc.timestamp + sint64_seq(vs), ..acc },
                    ),
                    None => None,
                },
                WireValue::Uint(v) => fold_dense_info(
                    rest,
                    pbf::SpecDenseInfo { timestamp: acc.timestamp.push(spec_sint64(v)), ..acc },
                ),
                _ => None,
            }
        } else if num == 3 {
            match val {
                WireValue::Chunk(bytes) => match packed_varints(bytes) {
                    Some(vs) => fold_dense_info(
                        rest,
                        pbf::SpecDenseInfo { changeset: acc.changeset + sint64_seq(vs), ..acc },
                    ),
                    None => None,
                },
                WireValue::Uint(v) => fold_dense_info(
                    rest,
                    pbf::SpecDenseInfo { changeset: acc.changeset.push(spec_sint64(v)), ..acc },
                ),
                _ => None,
            }
        } else if num == 4 {
            match val {
                WireValue::Chunk(bytes) => match packed_varints(bytes) {
                    Some(vs) => fold_dense_info(
                        rest,
                        pbf::SpecDenseInfo { uid: acc.uid + sint32_seq(vs), ..acc },
                    ),
                    None => None,
                },
                WireValue::Uint(v) => fold_dense_info(
                    rest,
                    pbf::SpecDenseInfo { uid: acc.uid.push(spec_sint32(v)), ..acc },
                ),
                _ => None,
            }
        } else if num == 5 {
            match val {
                WireValue::Chunk(bytes) => match packed_varints(bytes) {
                    Some(vs) => fold_dense_info(
                        rest,
                        pbf::SpecDenseInfo { user_sid: acc.user_sid + sint32_seq(vs), ..acc },
                    ),
                    None => None,
                },
                WireValue::Uint(v) => fold_dense_info(
                    rest,
                    pbf::SpecDenseInfo { user_sid: acc.user_sid.push(spec_sint32(v)), ..acc },
                ),
                _ => None,
            }
        } else if num == 6 {
            match val {
                WireValue::Chunk(bytes) => match packed_varints(bytes) {
                    Some(vs) => fold_dense_info(
                        rest,
                        pbf::SpecDenseInfo { visible: acc.visible + bool_seq(vs), ..acc },
                    ),
                    None => None,
                },
                WireValue::Uint(v) => fold_dense_info(
                    rest,
                    pbf::SpecDenseInfo { visible: acc.visible.push(v != 0), ..acc },
                ),
                _ => None,
            }
        } else {
            fold_dense_info(rest, acc)
        }
    }
}

/// The metadata columns of a dense node section `s` decodes to, or `None` when it is malformed.
pub open spec fn dense_info_of(s: Seq<u8>) -> Option<pbf::SpecDenseInfo> {
    match message_fields(s) {
        Some(fields) => fold_dense_info(fields, pbf::SpecDenseInfo {
            version: Seq::empty(),
            timestamp: Seq::empty(),
            changeset: Seq::empty(),
            uid: Seq::empty(),
            user_sid: Seq::empty(),
            visible: Seq::empty(),
        }),
        None => None,
    }
}

/// Decodes the optional metadata columns of a dense node section.
#[verifier::rlimit(60)]
fn parse_dense_info(s: &[u8]) -> (r: Result<pbf::DenseInfo, WireFault>)
    ensures
        match r {
            Ok(msg) => dense_info_of(s@) == Some(msg@),
            Err(_) => dense_info_of(s@) is None,
        },
{
    let len = s.len();
    let mut msg = pbf::DenseInfo {
        version: Vec::new(),
        timestamp: Vec::new(),
        changeset: Vec::new(),
        uid: Vec::new(),
        user_sid: Vec::new(),
        visible: Vec::new(),
    };
    let mut pos: usize = 0;
    while pos < len
        invariant
            pos <= len,
            len == s@.len(),
            (match fields_at(s@, pos as int, len - pos + 1) {
                Some(fields) => fold_dense_info(fields, msg@),
                None => None,
            }) == dense_info_of(s@),
        decreases len - pos,
    {
        let ghost fuel: int = len - pos + 1;
        let (num, wt, vpos) = match read_key(s, pos) {
            Ok(key) => key,
            Err(fault) => {
                assert(fields_at(s@, pos as int, fuel) is None);
                return Err(fault);
            },
        };
        if num == 1 {
            let end = match packed_or_single_int32(s, vpos, wt, &mut msg.version) {
                Ok(end) => end,
                Err(fault) => {
                    proof {
                        lemma_fields_at_known(s@, pos as int, fuel, num as int, wt as int, vpos as int);
                    }
                    return Err(fault);
                },
            };
            proof {
                lemma_fields_at_known(s@, pos as int, fuel, num as int, wt as int, vpos as int);
            }
            pos = end;
        } else if num == 2 {
            let end = match packed_or_single_sint64(s, vpos, wt, &mut msg.timestamp) {
                Ok(end) => end,
                Err(fault) => {
                    proof {
                        lemma_fields_at_known(s@, pos as int, fuel, num as int, wt as int, vpos as int);
                    }
                    return Err(fault);
                },
            };
            proof {
                lemma_fields_at_known(s@, pos as int, fuel, num as int, wt as int, vpos as int);
            }
            pos = end;
        } else if num == 3 {
            let end = match packed_or_single_sint64(s, vpos, wt, &mut msg.changeset) {
                Ok(end) => end,
                Err(fault) => {
                    proof {
                        lemma_fields_at_known(s@, pos as int, fuel, num as int, wt as int, vpos as int);
                    }
                    return Err(fault);
                },
            };
            proof {
                lemma_fields_at_known(s@, pos as int, fuel, num as int, wt as int, vpos as int);
            }
            pos = end;
        } else if num == 4 {
            let end = match packed_or_single_sint32(s, vpos, wt, &mut msg.uid) {
                Ok(end) => end,
                Err(fault) => {
                    proof {
                        lemma_fields_at_known(s@, pos as int, fuel, num as int, wt as int, vpos as int);
                    }
                    return Err(fault);
                },
            };
            proof {
                lemma_fields_at_known(s@, pos as int, fuel, num as int, wt as int, vpos as int);
            }
            pos = end;
        } else if num == 5 {
            let end = match packed_or_single_sint32(s, vpos, wt, &mut msg.user_sid) {
                Ok(end) => end,
                Err(fault) => {
                    proof {
                        lemma_fields_at_known(s@, pos as int, fuel, num as int, wt as int, vpos as int);
                    }
                    return Err(fault);
                },
            };
            proof {
                lemma_fields_at_known(s@, pos as int, fuel, num as int, wt as int, vpos as int);
            }
            pos = end;
        } else if num == 6 {
            let end = match packed_or_single_bool(s, vpos, wt, &mut msg.visible) {
                Ok(end) => end,
                Err(fault) => {
                    proof {
                        lemma_fields_at_known(s@, pos as int, fuel, num as int, wt as int, vpos as int);
                    }
                    return Err(fault);
                },
            };
            proof {
                lemma_fields_at_known(s@, pos as int, fuel, num as int, wt as int, vpos as int);
            }
            pos = end;
        } else {
            let end = match skip_value(s, vpos, wt) {
                Ok(ok) => ok,
                Err(fault) => {
                    proof {
                        lemma_fields_at_known(s@, pos as int, fuel, num as int, wt as int, vpos as int);
                    }
                    return Err(fault);
                },
            };
            proof {
                lemma_fields_at_known(s@, pos as int, fuel, num as int, wt as int, vpos as int);
            }
            pos = end;
        }
    }
    assert(fields_at(s@, pos as int, 1) == Some(Seq::<(int, WireValue)>::empty()));
    Ok(msg)
}

/// Folds the fields of a dense node section over an accumulator; later occurrences of a
/// scalar win, repeated fields append, unknown fields are skipped, and a
/// known field of the wrong wire type or with a malformed value fails the
/// message.
pub open spec fn fold_dense_nodes(fields: Seq<(int, WireValue)>, acc: pbf::SpecDenseNodes) -> Option<pbf::SpecDenseNodes>
    decreases fields.len(),
{
    if fields.len() == 0 {
        Some(acc)
    } else {
        let (num, val) = fields[0];
        let rest = fields.drop_first();
        if num == 1 {
            match val {
                WireValue::Chunk(bytes) => match packed_varints(bytes) {
                    Some(vs) => fold_dense_nodes(
                        rest,
                        pbf::SpecDenseNodes { id: acc.id + sint64_seq(vs), ..acc },
                    ),
                    None => None,
                },
                WireValue::Uint(v) => fold_dense_nodes(
                    rest,
                    pbf::SpecDenseNodes { id: acc.id.push(spec_sint64(v)), ..acc },
                ),
                _ => None,
            }
        } else if num == 5 {
            match val {
                WireValue::Chunk(bytes) => match dense_info_of(bytes) {
                    Some(sub) => fold_dense_nodes(rest, pbf::SpecDenseNodes { denseinfo: Some(sub), ..acc }),
                    None => None,
                },
                _ => None,
            }
        } else if num == 8 {
            match val {
                WireValue::Chunk(bytes) => match packed_varints(bytes) {
                    Some(vs) => fold_dense_nodes(
                        rest,
                        pbf::SpecDenseNodes { lat: acc.lat + sint64_seq(vs), ..acc },
                    ),
                    None => None,
                },
                WireValue::Uint(v) => fold_dense_nodes(
                    rest,
                    pbf::SpecDenseNodes { lat: acc.lat.push(spec_sint64(v)), ..acc },
                ),
                _ => None,
            }
        } else if num == 9 {
            match val {
                WireValue::Chunk(bytes) => match packed_varints(bytes) {
                    Some(vs) => fold_dense_nodes(
                        rest,
                        pbf::SpecDenseNodes { lon: acc.lon + sint64_seq(vs), ..acc },
                    ),
                    None => None,
                },
                WireValue::Uint(v) => fold_dense_nodes(
                    rest,
                    pbf::SpecDenseNodes { lon: acc.lon.push(spec_sint64(v)), ..acc },
                ),
                _ => None,
            }
        } else if num == 10 {
            match val {
                WireValue::Chunk(bytes) => match packed_varints(bytes) {
                    Some(vs) => fold_dense_nodes(
                        rest,
                        pbf::SpecDenseNodes { keys_vals: acc.keys_vals + int32_seq(vs), ..acc },
                    ),
                    None => None,
                },
                WireValue::Uint(v) => fold_dense_nodes(
                    rest,
                    pbf::SpecDenseNodes { keys_vals: acc.keys_vals.push(spec_int32(v)), ..acc },
                ),
                _ => None,
            }
        } else {
            fold_dense_nodes(rest, acc)
        }
    }
}

/// The dense node section `s` decodes to, or `None` when it is malformed.
pub open spec fn dense_nodes_of(s: Seq<u8>) -> Option<pbf::SpecDenseNodes> {
    match message_fields(s) {
        Some(fields) => fold_dense_nodes(fields, pbf::SpecDenseNodes {
            id: Seq::empty(),
            denseinfo: None,
            lat: Seq::empty(),
            lon: Seq::empty(),
            keys_vals: Seq::empty(),
        }),
        None => None,
    }
}

/// Decodes a dense node section.
#[verifier::rlimit(60)]
fn parse_dense_nodes(s: &[u8]) -> (r: Result<pbf::DenseNodes, WireFault>)
    ensures
        match r {
            Ok(msg) => dense_nodes_of(s@) == Some(msg@),
            Err(_) => dense_nodes_of(s@) is None,
        },
{
    let len = s.len();
    let mut msg = pbf::DenseNodes {
        id: Vec::new(),
        denseinfo: None,
        lat: Vec::new(),
        lon: Vec::new(),
        keys_vals: Vec::new(),
    };
    let mut pos: usize = 0;
    while pos < len
        invariant
            pos <= len,
            len == s@.len(),
            (match fields_at(s@, pos as int, len - pos + 1) {
                Some(fields) => fold_dense_nodes(fields, msg@),
                None => None,
            }) == dense_nodes_of(s@),
        decreases len - pos,
    {
        let ghost fuel: int = len - pos + 1;
        let (num, wt, vpos) = match read_key(s, pos) {
            Ok(key) => key,
            Err(fault) => {
                assert(fields_at(s@, pos as int, fuel) is None);
                return Err(fault);
            },
        };
        if num == 1 {
            let end = match packed_or_single_sint64(s, vpos, wt, &mut msg.id) {
                Ok(end) => end,
                Err(fault) => {
                    proof {
                        lemma_fields_at_known(s@, pos as int, fuel, num as int, wt as int, vpos as int);
                    }
                    return Err(fault);
                },
            };
            proof {
                lemma_fields_at_known(s@, pos as int, fuel, num as int, wt as int, vpos as int);
            }
            pos = end;
        } else if num == 5 {
            if wt != 2 {
                proof {
                    lemma_fields_at_known(s@, pos as int, fuel, num as int, wt as int, vpos as int);
                }
                return Err(WireFault::InvalidKey);
            }
            let (start, end) = match read_chunk_bounds(s, vpos) {
                Ok(ok) => ok,
                Err(fault) => {
                    proof {
                        lemma_fields_at_known(s@, pos as int, fuel, num as int, wt as int, vpos as int);
                    }
                    return Err(fault);
                },
            };
            proof {
                lemma_fields_at_known(s@, pos as int, fuel, num as int, wt as int, vpos as int);
            }
            let sub = match parse_dense_info(slice_subrange(s, start, end)) {
                Ok(ok) => ok,
                Err(fault) => {
                    proof {
                        lemma_fields_at_known(s@, pos as int, fuel, num as int, wt as int, vpos as int);
                    }
                    return Err(fault);
                },
            };
            msg.denseinfo = Some(sub);
            pos = end;
        } else if num == 8 {
            let end = match packed_or_single_sint64(s, vpos, wt, &mut msg.lat) {
                Ok(end) => end,
                Err(fault) => {
                    proof {
                        lemma_fields_at_known(s@, pos as int, fuel, num as int, wt as int, vpos as int);
                    }
                    return Err(fault);
                },
            };
            proof {
                lemma_fields_at_known(s@, pos as int, fuel, num as int, wt as int, vpos as int);
            }
            pos = end;
        } else if num == 9 {
            let end = match packed_or_single_sint64(s, vpos, wt, &mut msg.lon) {
                Ok(end) => end,
                Err(fault) => {
                    proof {
                        lemma_fields_at_known(s@, pos as int, fuel, num as int, wt as int, vpos as int);
                    }
                    return Err(fault);
                },
            };
            proof {
                lemma_fields_at_known(s@, pos as int, fuel, num as int, wt as int, vpos as int);
            }
            pos = end;
        } else if num == 10 {
            let end = match packed_or_single_int32(s, vpos, wt, &mut msg.keys_vals) {
                Ok(end) => end,
                Err(fault) => {
                    proof {
                        lemma_fields_at_known(s@, pos as int, fuel, num as int, wt as int, vpos as int);
                    }
                    return Err(fault);
                },
            };
            proof {
                lemma_fields_at_known(s@, pos as int, fuel, num as int, wt as int, vpos as int);
            }
            pos = end;
        } else {
            let end = match skip_value(s, vpos, wt) {
                Ok(ok) => ok,
                Err(fault) => {
                    proof {
                        lemma_fields_at_known(s@, pos as int, fuel, num as int, wt as int, vpos as int);
                    }
                    return Err(fault);
                },
            };
            proof {
                lemma_fields_at_known(s@, pos as int, fuel, num as int, wt as int, vpos as int);
            }
            pos = end;
        }
    }
    assert(fields_at(s@, pos as int, 1) == Some(Seq::<(int, WireValue)>::empty()));
    Ok(msg)
}

/// Folds the fields of a plain node over an accumulator; later occurrences of a
/// scalar win, repeated fields append, unknown fields are skipped, and a
/// known field of the wrong wire type or with a malformed value fails the
/// message.
pub open spec fn fold_node(fields: Seq<(int, WireValue)>, acc: pbf::SpecNode) -> Option<pbf::SpecNode>
    decreases fields.len(),
{
    if fields.len() == 0 {
        Some(acc)
    } else {
        let (num, val) = fields[0];
        let rest = fields.drop_first();
        if num == 1 {
            match val {
                WireValue::Uint(v) => fold_node(rest, pbf::SpecNode { id: spec_sint64(v), ..acc }),
                _ => None,
            }
        } else if num == 2 {
            match val {
                WireValue::Chunk(bytes) => match packed_varints(bytes) {
                    Some(vs) => fold_node(
                        rest,
                        pbf::SpecNode { keys: acc.keys + uint32_seq(vs), ..acc },
                    ),
                    None => None,
                },
                WireValue::Uint(v) => fold_node(
                    rest,
                    pbf::SpecNode { keys: acc.keys.push(spec_uint32(v)), ..acc },
                ),
                _ => None,
            }
        } else if num == 3 {
            match val {
                WireValue::Chunk(bytes) => match packed_varints(bytes) {
                    Some(vs) => fold_node(
                        rest,
                        pbf::SpecNode { vals: acc.vals + uint32_seq(vs), ..acc },
                    ),
                    None => None,
                },
                WireValue::Uint(v) => fold_node(
                    rest,
                    pbf::SpecNode { vals: acc.vals.push(spec_uint32(v)), ..acc },
                ),
                _ => None,
            }
        } else if num == 4 {
            match val {
                WireValue::Chunk(bytes) => match info_of(bytes) {
                    Some(sub) => fold_node(rest, pbf::SpecNode { info: Some(sub), ..acc }),
                    None => None,
                },
                _ => None,
            }
        } else if num == 8 {
            match val {
                WireValue::Uint(v) => fold_node(rest, pbf::SpecNode { lat: spec_sint64(v), ..acc }),
                _ => None,
            }
        } else if num == 9 {
            match val {
                WireValue::Uint(v) => fold_node(rest, pbf::SpecNode { lon: spec_sint64(v), ..acc }),
                _ => None,
            }
        } else {
            fold_node(rest, acc)
        }
    }
}

/// The plain node `s` decodes to, or `None` when it is malformed.
pub open spec fn node_of(s: Seq<u8>) -> Option<pbf::SpecNode> {
    match message_fields(s) {
        Some(fields) => fold_node(fields, pbf::SpecNode {
            id: 0i64,
            keys: Seq::empty(),
            vals: Seq::empty(),
            info: None,
            lat: 0i64,
            lon: 0i64,
        }),
        None => None,
    }
}

/// Decodes a plain (non-dense) node.
#[verifier::rlimit(60)]
fn parse_node(s: &[u8]) -> (r: Result<pbf::Node, WireFault>)
    ensures
        match r {
            Ok(msg) => node_of(s@) == Some(msg@),
            Err(_) => node_of(s@) is None,
        },
{
    let len = s.len();
    let mut msg = pbf::Node { id: 0, keys: Vec::new(), vals: Vec::new(), info: None, lat: 0, lon: 0 };
    let mut pos: usize = 0;
    while pos < len
        invariant
            pos <= len,
            len == s@.len(),
            (match fields_at(s@, pos as int, len - pos + 1) {
                Some(fields) => fold_node(fields, msg@),
                None => None,
            }) == node_of(s@),
        decreases len - pos,
    {
        let ghost fuel: int = len - pos + 1;
        let (num, wt, vpos) = match read_key(s, pos) {
            Ok(key) => key,
            Err(fault) => {
                assert(fields_at(s@, pos as int, fuel) is None);
                return Err(fault);
            },
        };
        if num == 1 {
            if wt != 0 {
                proof {
                    lemma_fields_at_known(s@, pos as int, fuel, num as int, wt as int, vpos as int);
                }
                return Err(WireFault::InvalidKey);
            }
            let (v, end) = match read_varint(s, vpos) {
                Ok(ok) => ok,
                Err(fault) => {
                    proof {
                        lemma_fields_at_known(s@, pos as int, fuel, num as int, wt as int, vpos as int);
                    }
                    return Err(fault);
                },
            };
            proof {
                lemma_fields_at_known(s@, pos as int, fuel, num as int, wt as int, vpos as int);
                assert(value_at(s@, vpos as int, 0) == WireValue::Uint(v as int));
            }
            msg.id = sint64_from_varint(v);
            pos = end;
        } else if num == 2 {
            let end = match packed_or_single_uint32(s, vpos, wt, &mut msg.keys) {
                Ok(end) => end,
                Err(fault) => {
                    proof {
                        lemma_fields_at_known(s@, pos as int, fuel, num as int, wt as int, vpos as int);
                    }
                    return Err(fault);
                },
            };
            proof {
                lemma_fields_at_known(s@, pos as int, fuel, num as int, wt as int, vpos as int);
            }
            pos = end;
        } else if num == 3 {
            let end = match packed_or_single_uint32(s, vpos, wt, &mut msg.vals) {
                Ok(end) => end,
                Err(fault) => {
                    proof {
                        lemma_fields_at_known(s@, pos as int, fuel, num as int, wt as int, vpos as int);
                    }
                    return Err(fault);
                },
            };
            proof {
                lemma_fields_at_known(s@, pos as int, fuel, num as int, wt as int, vpos as int);
            }
            pos = end;
        } else if num == 4 {
            if wt != 2 {
                proof {
                    lemma_fields_at_known(s@, pos as int, fuel, num as int, wt as int, vpos as int);
                }
                return Err(WireFault::InvalidKey);
            }
            let (start, end) = match read_chunk_bounds(s, vpos) {
                Ok(ok) => ok,
                Err(fault) => {
                    proof {
                        lemma_fields_at_known(s@, pos as int, fuel, num as int, wt as int, vpos as int);
                    }
                    return Err(fault);
                },
            };
            proof {
                lemma_fields_at_known(s@, pos as int, fuel, num as int, wt as int, vpos as int);
            }
            let sub = match parse_info(slice_subrange(s, start, end)) {
                Ok(ok) => ok,
                Err(fault) => {
                    proof {
                        lemma_fields_at_known(s@, pos as int, fuel, num as int, wt as int, vpos as int);
                    }
                    return Err(fault);
                },
            };
            msg.info = Some(sub);
            pos = end;
        } else if num == 8 {
            if wt != 0 {
                proof {
                    lemma_fields_at_known(s@, pos as int, fuel, num as int, wt as int, vpos as int);
                }
                return Err(WireFault::InvalidKey);
            }
            let (v, end) = match read_varint(s, vpos) {
                Ok(ok) => ok,
                Err(fault) => {
                    proof {
                        lemma_fields_at_known(s@, pos as int, fuel, num as int, wt as int, vpos as int);
                    }
                    return Err(fault);
                },
            };
            proof {
                lemma_fields_at_known(s@, pos as int, fuel, num as int, wt as int, vpos as int);
                assert(value_at(s@, vpos as int, 0) == WireValue::Uint(v as int));
            }
            msg.lat = sint64_from_varint(v);
            pos = end;
        } else if num == 9 {
            if wt != 0 {
                proof {
                    lemma_fields_at_known(s@, pos as int, fuel, num as int, wt as int, vpos as int);
                }
                return Err(WireFault::InvalidKey);
            }
            let (v, end) = match read_varint(s, vpos) {
                Ok(ok) => ok,
                Err(fault) => {
                    proof {
                        lemma_fields_at_known(s@, pos as int, fuel, num as int, wt as int, vpos as int);
                    }
                    return Err(fault);
                },
            };
            proof {
                lemma_fields_at_known(s@, pos as int, fuel, num as int, wt as int, vpos as int);
                assert(value_at(s@, vpos as int, 0) == WireValue::Uint(v as int));
            }
            msg.lon = sint64_from_varint(v);
            pos = end;
        } else {
            let end = match skip_value(s, vpos, wt) {
                Ok(ok) => ok,
                Err(fault) => {
                    proof {
                        lemma_fields_at_known(s@, pos as int, fuel, num as int, wt as int, vpos as int);
                    }
                    return Err(fault);
                },
            };
            proof {
                lemma_fields_at_known(s@, pos as int, fuel, num as int, wt as int, vpos as int);
            }
            pos = end;
        }
    }
    assert(fields_at(s@, pos as int, 1) == Some(Seq::<(int, WireValue)>::empty()));
    Ok(msg)
}

/// Folds the fields of a way over an accumulator; later occurrences of a
/// scalar win, repeated fields append, unknown fields are skipped, and a
/// known field of the wrong wire type or with a malformed value fails the
/// message.
pub open spec fn fold_way(fields: Seq<(int, WireValue)>, acc: pbf::SpecWay) -> Option<pbf::SpecWay>
    decreases fields.len(),
{
    if fields.len() == 0 {
        Some(acc)
    } else {
        let (num, val) = fields[0];
        let rest = fields.drop_first();
        if num == 1 {
            match val {
                WireValue::Uint(v) => fold_way(rest, pbf::SpecWay { id: spec_int64(v), ..acc }),
                _ => None,
            }
        } else if num == 2 {
            match val {
                WireValue::Chunk(bytes) => match packed_varints(bytes) {
                    Some(vs) => fold_way(
                        rest,
                        pbf::SpecWay { keys: acc.keys + uint32_seq(vs), ..acc },
                    ),
                    None => None,
                },
                WireValue::Uint(v) => fold_way(
                    rest,
                    pbf::SpecWay { keys: acc.keys.push(spec_uint32(v)), ..acc },
                ),
                _ => None,
            }
        } else if num == 3 {
            match val {
                WireValue::Chunk(bytes) => match packed_varints(bytes) {
                    Some(vs) => fold_way(
                        rest,
                        pbf::SpecWay { vals: acc.vals + uint32_seq(vs), ..acc },
                    ),
                    None => None,
                },
                WireValue::Uint(v) => fold_way(
                    rest,
                    pbf::SpecWay { vals: acc.vals.push(spec_uint32(v)), ..acc },
                ),
                _ => None,
            }
        } else if num == 4 {
            match val {
                WireValue::Chunk(bytes) => match info_of(bytes) {
                    Some(sub) => fold_way(rest, pbf::SpecWay { info: Some(sub), ..acc }),
                    None => None,
                },
                _ => None,
            }
        } else if num == 8 {
            match val {
                WireValue::Chunk(bytes) => match packed_varints(bytes) {
                    Some(vs) => fold_way(
                        rest,
                        pbf::SpecWay { refs: acc.refs + sint64_seq(vs), ..acc },
                    ),
                    None => None,
                },
                WireValue::Uint(v) => fold_way(
                    rest,
                    pbf::SpecWay { refs: acc.refs.push(spec_sint64(v)), ..acc },
                ),
                _ => None,
            }
        } else {
            fold_way(rest, acc)
        }
    }
}

/// The way `s` decodes to, or `None` when it is malformed.
pub open spec fn way_of(s: Seq<u8>) -> Option<pbf::SpecWay> {
    match message_fields(s) {
        Some(fields) => fold_way(fields, pbf::SpecWay {
            id: 0i64,
            keys: Seq::empty(),
            vals: Seq::empty(),
            info: None,
            refs: Seq::empty(),
        }),
        None => None,
    }
}

/// Decodes a way.
#[verifier::rlimit(60)]
fn parse_way(s: &[u8]) -> (r: Result<pbf::Way, WireFault>)
    ensures
        match r {
            Ok(msg) => way_of(s@) == Some(msg@),
            Err(_) => way_of(s@) is None,
        },
{
    let len = s.len();
    let mut msg = pbf::Way { id: 0, keys: Vec::new(), vals: Vec::new(), info: None, refs: Vec::new() };
    let mut pos: usize = 0;
    while pos < len
        invariant
            pos <= len,
            len == s@.len(),
            (match fields_at(s@, pos as int, len - pos + 1) {
                Some(fields) => fold_way(fields, msg@),
                None => None,
            }) == way_of(s@),
        decreases len - pos,
    {
        let ghost fuel: int = len - pos + 1;
        let (num, wt, vpos) = match read_key(s, pos) {
            Ok(key) => key,
            Err(fault) => {
                assert(fields_at(s@, pos as int, fuel) is None);
                return Err(fault);
            },
        };
        if num == 1 {
            if wt != 0 {
                proof {
                    lemma_fields_at_known(s@, pos as int, fuel, num as int, wt as int, vpos as int);
                }
                return Err(WireFault::InvalidKey);
            }
            let (v, end) = match read_varint(s, vpos) {
                Ok(ok) => ok,
                Err(fault) => {
                    proof {
                        lemma_fields_at_known(s@, pos as int, fuel, num as int, wt as int, vpos as int);
                    }
                    return Err(fault);
                },
            };
            proof {
                lemma_fields_at_known(s@, pos as int, fuel, num as int, wt as int, vpos as int);
                assert(value_at(s@, vpos as int, 0) == WireValue::Uint(v as int));
            }
            msg.id = int64_from_varint(v);
            pos = end;
        } else if num == 2 {
            let end = match packed_or_single_uint32(s, vpos, wt, &mut msg.keys) {
                Ok(end) => end,
                Err(fault) => {
                    proof {
                        lemma_fields_at_known(s@, pos as int, fuel, num as int, wt as int, vpos as int);
                    }
                    return Err(fault);
                },
            };
            proof {
                lemma_fields_at_known(s@, pos as int, fuel, num as int, wt as int, vpos as int);
            }
            pos = end;
        } else if num == 3 {
            let end = match packed_or_single_uint32(s, vpos, wt, &mut msg.vals) {
                Ok(end) => end,
                Err(fault) => {
                    proof {
                        lemma_fields_at_known(s@, pos as int, fuel, num as int, wt as int, vpos as int);
                    }
                    return Err(fault);
                },
            };
            proof {
                lemma_fields_at_known(s@, pos as int, fuel, num as int, wt as int, vpos as int);
            }
            pos = end;
        } else if num == 4 {
            if wt != 2 {
                proof {
                    lemma_fields_at_known(s@, pos as int, fuel, num as int, wt as int, vpos as int);
                }
                return Err(WireFault::InvalidKey);
            }
            let (start, end) = match read_chunk_bounds(s, vpos) {
                Ok(ok) => ok,
                Err(fault) => {
                    proof {
                        lemma_fields_at_known(s@, pos as int, fuel, num as int, wt as int, vpos as int);
                    }
                    return Err(fault);
                },
            };
            proof {
                lemma_fields_at_known(s@, pos as int, fuel, num as int, wt as int, vpos as int);
            }
            let sub = match parse_info(slice_subrange(s, start, end)) {
                Ok(ok) => ok,
                Err(fault) => {
                    proof {
                        lemma_fields_at_known(s@, pos as int, fuel, num as int, wt as int, vpos as int);
                    }
                    return Err(fault);
                },
            };
            msg.info = Some(sub);
            pos = end;
        } else if num == 8 {
            let end = match packed_or_single_sint64(s, vpos, wt, &mut msg.refs) {
                Ok(end) => end,
                Err(fault) => {
                    proof {
                        lemma_fields_at_known(s@, pos as int, fuel, num as int, wt as int, vpos as int);
                    }
                    return Err(fault);
                },
            };
            proof {
                lemma_fields_at_known(s@, pos as int, fuel, num as int, wt as int, vpos as int);
            }
            pos = end;
        } else {
            let end = match skip_value(s, vpos, wt) {
                Ok(ok) => ok,
                Err(fault) => {
                    proof {
                        lemma_fields_at_known(s@, pos as int, fuel, num as int, wt as int, vpos as int);
                    }
                    return Err(fault);
                },
            };
            proof {
                lemma_fields_at_known(s@, pos as int, fuel, num as int, wt as int, vpos as int);
            }
            pos = end;
        }
    }
    assert(fields_at(s@, pos as int, 1) == Some(Seq::<(int, WireValue)>::empty()));
    Ok(msg)
}

/// Folds the fields of a relation over an accumulator; later occurrences of a
/// scalar win, repeated fields append, unknown fields are skipped, and a
/// known field of the wrong wire type or with a malformed value fails the
/// message.
pub open spec fn fold_relation(fields: Seq<(int, WireValue)>, acc: pbf::SpecRelation) -> Option<pbf::SpecRelation>
    decreases fields.len(),
{
    if fields.len() == 0 {
        Some(acc)
    } else {
        let (num, val) = fields[0];
        let rest = fields.drop_first();
        if num == 1 {
            match val {
                WireValue::Uint(v) => fold_relation(rest, pbf::SpecRelation { id: spec_int64(v), ..acc }),
                _ => None,
            }
        } else if num == 2 {
            match val {
                WireValue::Chunk(bytes) => match packed_varints(bytes) {
                    Some(vs) => fold_relation(
                        rest,
                        pbf::SpecRelation { keys: acc.keys + uint32_seq(vs), ..acc },
                    ),
                    None => None,
                },
                WireValue::Uint(v) => fold_relation(
                    rest,
                    pbf::SpecRelation { keys: acc.keys.push(spec_uint32(v)), ..acc },
                ),
                _ => None,
            }
        } else if num == 3 {
            match val {
                WireValue::Chunk(bytes) => match packed_varints(bytes) {
                    Some(vs) => fold_relation(
                        rest,
                        pbf::SpecRelation { vals: acc.vals + uint32_seq(vs), ..acc },
                    ),
                    None => None,
                },
                WireValue::Uint(v) => fold_relation(
                    rest,
                    pbf::SpecRelation { vals: acc.vals.push(spec_uint32(v)), ..acc },
                ),
                _ => None,
            }
        } else if num == 4 {
            match val {
                WireValue::Chunk(bytes) => match info_of(bytes) {
                    Some(sub) => fold_relation(rest, pbf::SpecRelation { info: Some(sub), ..acc }),
                    None => None,
                },
                _ => None,
            }
        } else if num == 8 {
            match val {
                WireValue::Chunk(bytes) => match packed_varints(bytes) {
                    Some(vs) => fold_relation(
                        rest,
                        pbf::SpecRelation { roles_sid: acc.roles_sid + int32_seq(vs), ..acc },
                    ),
                    None => None,
                },
                WireValue::Uint(v) => fold_relation(
                    rest,
                    pbf::SpecRelation { roles_sid: acc.roles_sid.push(spec_int32(v)), ..acc },
                ),
                _ => None,
            }
        } else if num == 9 {
            match val {
                WireValue::Chunk(bytes) => match packed_varints(bytes) {
                    Some(vs) => fold_relation(
                        rest,
                        pbf::SpecRelation { memids: acc.memids + sint64_seq(vs), ..acc },
                    ),
                    None => None,
                },
                WireValue::Uint(v) => fold_relation(
                    rest,
                    pbf::SpecRelation { memids: acc.memids.push(spec_sint64(v)), ..acc },
                ),
                _ => None,
            }
        } else if num == 10 {
            match val {
                WireValue::Chunk(bytes) => match packed_varints(bytes) {
                    Some(vs) => fold_relation(
                        rest,
                        pbf::SpecRelation { types: acc.types + int32_seq(vs), ..acc },
                    ),
                    None => None,
                },
                WireValue::Uint(v) => fold_relation(
                    rest,
                    pbf::SpecRelation { types: acc.types.push(spec_int32(v)), ..acc },
                ),
                _ => None,
            }
        } else {
            fold_relation(rest, acc)
        }
    }
}

/// The relation `s` decodes to, or `None` when it is malformed.
pub open spec fn relation_of(s: Seq<u8>) -> Option<pbf::SpecRelation> {
    match message_fields(s) {
        Some(fields) => fold_relation(fields, pbf::SpecRelation {
            id: 0i64,
            keys: Seq::empty(),
            vals: Seq::empty(),
            info: None,
            roles_sid: Seq::empty(),
            memids: Seq::empty(),
            types: Seq::empty(),
        }),
        None => None,
    }
}

/// Decodes a relation.
#[verifier::rlimit(100)]
fn parse_relation(s: &[u8]) -> (r: Result<pbf::Relation, WireFault>)
    ensures
        match r {
            Ok(msg) => relation_of(s@) == Some(msg@),
            Err(_) => relation_of(s@) is None,
        },
{
    let len = s.len();
    let mut msg = pbf::Relation {
        id: 0,
        keys: Vec::new(),
        vals: Vec::new(),
        info: None,
        roles_sid: Vec::new(),
        memids: Vec::new(),
        types: Vec::new(),
    };
    let mut pos: usize = 0;
    while pos < len
        invariant
            pos <= len,
            len == s@.len(),
            (match fields_at(s@, pos as int, len - pos + 1) {
                Some(fields) => fold_relation(fields, msg@),
                None => None,
            }) == relation_of(s@),
        decreases len - pos,
    {
        let ghost fuel: int = len - pos + 1;
        let (num, wt, vpos) = match read_key(s, pos) {
            Ok(key) => key,
            Err(fault) => {
                assert(fields_at(s@, pos as int, fuel) is None);
                return Err(fault);
            },
        };
        if num == 1 {
            if wt != 0 {
                proof {
                    lemma_fields_at_known(s@, pos as int, fuel, num as int, wt as int, vpos as int);
                }
                return Err(WireFault::InvalidKey);
            }
            let (v, end) = match read_varint(s, vpos) {
                Ok(ok) => ok,
                Err(fault) => {
                    proof {
                        lemma_fields_at_known(s@, pos as int, fuel, num as int, wt as int, vpos as int);
                    }
                    return Err(fault);
                },
            };
            proof {
                lemma_fields_at_known(s@, pos as int, fuel, num as int, wt as int, vpos as int);
                assert(value_at(s@, vpos as int, 0) == WireValue::Uint(v as int));
            }
            msg.id = int64_from_varint(v);
            pos = end;
        } else if num == 2 {
            let end = match packed_or_single_uint32(s, vpos, wt, &mut msg.keys) {
                Ok(end) => end,
                Err(fault) => {
                    proof {
                        lemma_fields_at_known(s@, pos as int, fuel, num as int, wt as int, vpos as int);
                    }
                    return Err(fault);
                },
            };
            proof {
                lemma_fields_at_known(s@, pos as int, fuel, num as int, wt as int, vpos as int);
            }
            pos = end;
        } else if num == 3 {
            let end = match packed_or_single_uint32(s, vpos, wt, &mut msg.vals) {
                Ok(end) => end,
                Err(fault) => {
                    proof {
                        lemma_fields_at_known(s@, pos as int, fuel, num as int, wt as int, vpos as int);
                    }
                    return Err(fault);
                },
            };
            proof {
                lemma_fields_at_known(s@, pos as int, fuel, num as int, wt as int, vpos as int);
            }
            pos = end;
        } else if num == 4 {
            if wt != 2 {
                proof {
                    lemma_fields_at_known(s@, pos as int, fuel, num as int, wt as int, vpos as int);
                }
                return Err(WireFault::InvalidKey);
            }
            let (start, end) = match read_chunk_bounds(s, vpos) {
                Ok(ok) => ok,
                Err(fault) => {
                    proof {
                        lemma_fields_at_known(s@, pos as int, fuel, num as int, wt as int, vpos as int);
                    }
                    return Err(fault);
                },
            };
            proof {
                lemma_fields_at_known(s@, pos as int, fuel, num as int, wt as int, vpos as int);
            }
            let sub = match parse_info(slice_subrange(s, start, end)) {
                Ok(ok) => ok,
                Err(fault) => {
                    proof {
                        lemma_fields_at_known(s@, pos as int, fuel, num as int, wt as int, vpos as int);
                    }
                    return Err(fault);
                },
            };
            msg.info = Some(sub);
            pos = end;
        } else if num == 8 {
            let end = match packed_or_single_int32(s, vpos, wt, &mut msg.roles_sid) {
                Ok(end) => end,
                Err(fault) => {
                    proof {
                        lemma_fields_at_known(s@, pos as int, fuel, num as int, wt as int, vpos as int);
                    }
                    return Err(fault);
                },
            };
            proof {
                lemma_fields_at_known(s@, pos as int, fuel, num as int, wt as int, vpos as int);
            }
            pos = end;
        } else if num == 9 {
            let end = match packed_or_single_sint64(s, vpos, wt, &mut msg.memids) {
                Ok(end) => end,
                Err(fault) => {
                    proof {
                        lemma_fields_at_known(s@, pos as int, fuel, num as int, wt as int, vpos as int);
                    }
                    return Err(fault);
                },
            };
            proof {
                lemma_fields_at_known(s@, pos as int, fuel, num as int, wt as int, vpos as int);
            }
            pos = end;
        } else if num == 10 {
            let end = match packed_or_single_int32(s, vpos, wt, &mut msg.types) {
                Ok(end) => end,
                Err(fault) => {
                    proof {
                        lemma_fields_at_known(s@, pos as int, fuel, num as int, wt as int, vpos as int);
                    }
                    return Err(fault);
                },
            };
            proof {
                lemma_fields_at_known(s@, pos as int, fuel, num as int, wt as int, vpos as int);
            }
            pos = end;
        } else {
            let end = match skip_value(s, vpos, wt) {
                Ok(ok) => ok,
                Err(fault) => {
                    proof {
                        lemma_fields_at_known(s@, pos as int, fuel, num as int, wt as int, vpos as int);
                    }
                    return Err(fault);
                },
            };
            proof {
                lemma_fields_at_known(s@, pos as int, fuel, num as int, wt as int, vpos as int);
            }
            pos = end;
        }
    }
    assert(fields_at(s@, pos as int, 1) == Some(Seq::<(int, WireValue)>::empty()));
    Ok(msg)
}

/// Folds the fields of one group of a primitive block over an accumulator; later occurrences of a
/// scalar win, repeated fields append, unknown fields are skipped, and a
/// known field of the wrong wire type or with a malformed value fails the
/// message.
pub open spec fn fold_primitive_group(fields: Seq<(int, WireValue)>, acc: pbf::SpecPrimitiveGroup) -> Option<pbf::SpecPrimitiveGroup>
    decreases fields.len(),
{
    if fields.len() == 0 {
        Some(acc)
    } else {
        let (num, val) = fields[0];
        let rest = fields.drop_first();
        if num == 1 {
            match val {
                WireValue::Chunk(bytes) => match node_of(bytes) {
                    Some(sub) => fold_primitive_group(rest, pbf::SpecPrimitiveGroup { nodes: acc.nodes.push(sub), ..acc }),
                    None => None,
                },
                _ => None,
            }
        } else if num == 2 {
            match val {
                WireValue::Chunk(bytes) => match dense_nodes_of(bytes) {
                    Some(sub) => fold_primitive_group(rest, pbf::SpecPrimitiveGroup { dense: Some(sub), ..acc }),
                    None => None,
                },
                _ => None,
            }
        } else if num == 3 {
            match val {
                WireValue::Chunk(bytes) => match way_of(bytes) {
                    Some(sub) => fold_primitive_group(rest, pbf::SpecPrimitiveGroup { ways: acc.ways.push(sub), ..acc }),
                    None => None,
                },
                _ => None,
            }
        } else if num == 4 {
            match val {
                WireValue::Chunk(bytes) => match relation_of(bytes) {
                    Some(sub) => fold_primitive_group(rest, pbf::SpecPrimitiveGroup { relations: acc.relations.push(sub), ..acc }),
                    None => None,
                },
                _ => None,
            }
        } else if num == 5 {
            match val {
                WireValue::Chunk(bytes) => match changeset_of(bytes) {
                    Some(sub) => fold_primitive_group(rest, pbf::SpecPrimitiveGroup { changesets: acc.changesets.push(sub), ..acc }),
                    None => None,
                },
                _ => None,
            }
        } else {
            fold_primitive_group(rest, acc)
        }
    }
}

/// The group of a primitive block `s` decodes to, or `None` when it is malformed.
pub open spec fn primitive_group_of(s: Seq<u8>) -> Option<pbf::SpecPrimitiveGroup> {
    match message_fields(s) {
        Some(fields) => fold_primitive_group(fields, pbf::SpecPrimitiveGroup {
            nodes: Seq::empty(),
            dense: None,
            ways: Seq::empty(),
            relations: Seq::empty(),
            changesets: Seq::empty(),
        }),
        None => None,
    }
}

/// Decodes one group of a primitive block.
#[verifier::rlimit(60)]
fn parse_primitive_group(s: &[u8]) -> (r: Result<pbf::PrimitiveGroup, WireFault>)
    ensures
        match r {
            Ok(msg) => primitive_group_of(s@) == Some(msg@),
            Err(_) => primitive_group_of(s@) is None,
        },
{
    let len = s.len();
    let mut msg = pbf::PrimitiveGroup {
        nodes: Vec::new(),
        dense: None,
        ways: Vec::new(),
        relations: Vec::new(),
        changesets: Vec::new(),
    };
    let mut pos: usize = 0;
    proof {
        assert(msg@.nodes =~= Seq::<pbf::SpecNode>::empty());
        assert(msg@.ways =~= Seq::<pbf::SpecWay>::empty());
        assert(msg@.relations =~= Seq::<pbf::SpecRelation>::empty());
    }
    while pos < len
        invariant
            pos <= len,
            len == s@.len(),
            (match fields_at(s@, pos as int, len - pos + 1) {
                Some(fields) => fold_primitive_group(fields, msg@),
                None => None,
            }) == primitive_group_of(s@),
        decreases len - pos,
    {
        let ghost fuel: int = len - pos + 1;
        let (num, wt, vpos) = match read_key(s, pos) {
            Ok(key) => key,
            Err(fault) => {
                assert(fields_at(s@, pos as int, fuel) is None);
                return Err(fault);
            },
        };
        if num == 1 {
            if wt != 2 {
                proof {
                    lemma_fields_at_known(s@, pos as int, fuel, num as int, wt as int, vpos as int);
                }
                return Err(WireFault::InvalidKey);
            }
            let (start, end) = match read_chunk_bounds(s, vpos) {
                Ok(ok) => ok,
                Err(fault) => {
                    proof {
                        lemma_fields_at_known(s@, pos as int, fuel, num as int, wt as int, vpos as int);
                    }
                    return Err(fault);
                },
            };
            proof {
                lemma_fields_at_known(s@, pos as int, fuel, num as int, wt as int, vpos as int);
            }
            let sub = match parse_node(slice_subrange(s, start, end)) {
                Ok(ok) => ok,
                Err(fault) => {
                    proof {
                        lemma_fields_at_known(s@, pos as int, fuel, num as int, wt as int, vpos as int);
                    }
                    return Err(fault);
                },
            };
            let ghost before = msg@;
            msg.nodes.push(sub);
            proof {
                assert(msg@.nodes =~= before.nodes.push(sub@));
            }
            pos = end;
        } else if num == 2 {
            if wt != 2 {
                proof {
                    lemma_fields_at_known(s@, pos as int, fuel, num as int, wt as int, vpos as int);
                }
                return Err(WireFault::InvalidKey);
            }
            let (start, end) = match read_chunk_bounds(s, vpos) {
                Ok(ok) => ok,
                Err(fault) => {
                    proof {
                        lemma_fields_at_known(s@, pos as int, fuel, num as int, wt as int, vpos as int);
                    }
                    return Err(fault);
                },
            };
            proof {
                lemma_fields_at_known(s@, pos as int, fuel, num as int, wt as int, vpos as int);
            }
            let sub = match parse_dense_nodes(slice_subrange(s, start, end)) {
                Ok(ok) => ok,
                Err(fault) => {
                    proof {
                        lemma_fields_at_known(s@, pos as int, fuel, num as int, wt as int, vpos as int);
                    }
                    return Err(fault);
                },
            };
            msg.dense = Some(sub);
            pos = end;
        } else if num == 3 {
            if wt != 2 {
                proof {
                    lemma_fields_at_known(s@, pos as int, fuel, num as int, wt as int, vpos as int);
                }
                return Err(WireFault::InvalidKey);
            }
            let (start, end) = match read_chunk_bounds(s, vpos) {
                Ok(ok) => ok,
                Err(fault) => {
                    proof {
                        lemma_fields_at_known(s@, pos as int, fuel, num as int, wt as int, vpos as int);
                    }
                    return Err(fault);
                },
            };
            proof {
                lemma_fields_at_known(s@, pos as int, fuel, num as int, wt as int, vpos as int);
            }
            let sub = match parse_way(slice_subrange(s, start, end)) {
                Ok(ok) => ok,
                Err(fault) => {
                    proof {
                        lemma_fields_at_known(s@, pos as int, fuel, num as int, wt as int, vpos as int);
                    }
                    return Err(fault);
                },
            };
            let ghost before = msg@;
            msg.ways.push(sub);
            proof {
                assert(msg@.ways =~= before.ways.push(sub@));
            }
            pos = end;
        } else if num == 4 {
            if wt != 2 {
                proof {
                    lemma_fields_at_known(s@, pos as int, fuel, num as int, wt as int, vpos as int);
                }
                return Err(WireFault::InvalidKey);
            }
            let (start, end) = match read_chunk_bounds(s, vpos) {
                Ok(ok) => ok,
                Err(fault) => {
                    proof {
                        lemma_fields_at_known(s@, pos as int, fuel, num as int, wt as int, vpos as int);
                    }
                    return Err(fault);
                },
            };
            proof {
                lemma_fields_at_known(s@, pos as int, fuel, num as int, wt as int, vpos as int);
            }
            let sub = match parse_relation(slice_subrange(s, start, end)) {
                Ok(ok) => ok,
                Err(fault) => {
                    proof {
                        lemma_fields_at_known(s@, pos as int, fuel, num as int, wt as int, vpos as int);
                    }
                    return Err(fault);
                },
            };
            let ghost before = msg@;
            msg.relations.push(sub);
            proof {
                assert(msg@.relations =~= before.relations.push(sub@));
            }
            pos = end;
        } else if num == 5 {
            if wt != 2 {
                proof {
                    lemma_fields_at_known(s@, pos as int, fuel, num as int, wt as int, vpos as int);
                }
                return Err(WireFault::InvalidKey);
            }
            let (start, end) = match read_chunk_bounds(s, vpos) {
                Ok(ok) => ok,
                Err(fault) => {
                    proof {
                        lemma_fields_at_known(s@, pos as int, fuel, num as int, wt as int, vpos as int);
                    }
                    return Err(fault);
                },
            };
            proof {
                lemma_fields_at_known(s@, pos as int, fuel, num as int, wt as int, vpos as int);
            }
            let sub = match parse_changeset(slice_subrange(s, start, end)) {
                Ok(ok) => ok,
                Err(fault) => {
                    proof {
                        lemma_fields_at_known(s@, pos as int, fuel, num as int, wt as int, vpos as int);
                    }
                    return Err(fault);
                },
            };
            let ghost before = msg@;
            msg.changesets.push(sub);
            proof {
                assert(msg@.changesets =~= before.changesets.push(sub));
            }
            pos = end;
        } else {
            let end = match skip_value(s, vpos, wt) {
                Ok(ok) => ok,
                Err(fault) => {
                    proof {
                        lemma_fields_at_known(s@, pos as int, fuel, num as int, wt as int, vpos as int);
                    }
                    return Err(fault);
                },
            };
            proof {
                lemma_fields_at_known(s@, pos as int, fuel, num as int, wt as int, vpos as int);
            }
            pos = end;
        }
    }
    assert(fields_at(s@, pos as int, 1) == Some(Seq::<(int, WireValue)>::empty()));
    Ok(msg)
}

/// Folds the fields of a primitive block over an accumulator; later occurrences of a
/// scalar win, repeated fields append, unknown fields are skipped, and a
/// known field of the wrong wire type or with a malformed value fails the
/// message.
pub open spec fn fold_primitive_block(fields: Seq<(int, WireValue)>, acc: pbf::SpecPrimitiveBlock) -> Option<pbf::SpecPrimitiveBlock>
    decreases fields.len(),
{
    if fields.len() == 0 {
        Some(acc)
    } else {
        let (num, val) = fields[0];
        let rest = fields.drop_first();
        if num == 1 {
            match val {
                WireValue::Chunk(bytes) => match string_table_of(bytes) {
                    Some(sub) => fold_primitive_block(rest, pbf::SpecPrimitiveBlock { stringtable: sub, ..acc }),
                    None => None,
                },
                _ => None,
            }
        } else if num == 2 {
            match val {
                WireValue::Chunk(bytes) => match primitive_group_of(bytes) {
                    Some(sub) => fold_primitive_block(rest, pbf::SpecPrimitiveBlock { primitivegroup: acc.primitivegroup.push(sub), ..acc }),
                    None => None,
                },
                _ => None,
            }
        } else if num == 17 {
            match val {
                WireValue::Uint(v) => fold_primitive_block(rest, pbf::SpecPrimitiveBlock { granularity: Some(spec_int32(v)), ..acc }),
                _ => None,
            }
        } else if num == 18 {
            match val {
                WireValue::Uint(v) => fold_primitive_block(rest, pbf::SpecPrimitiveBlock { date_granularity: Some(spec_int32(v)), ..acc }),
                _ => None,
            }
        } else if num == 19 {
            match val {
                WireValue::Uint(v) => fold_primitive_block(rest, pbf::SpecPrimitiveBlock { lat_offset: Some(spec_int64(v)), ..acc }),
                _ => None,
            }
        } else if num == 20 {
            match val {
                WireValue::Uint(v) => fold_primitive_block(rest, pbf::SpecPrimitiveBlock { lon_offset: Some(spec_int64(v)), ..acc }),
                _ => None,
            }
        } else {
            fold_primitive_block(rest, acc)
        }
    }
}

/// The primitive block `s` decodes to, or `None` when it is malformed.
pub open spec fn primitive_block_of(s: Seq<u8>) -> Option<pbf::SpecPrimitiveBlock> {
    match message_fields(s) {
        Some(fields) => fold_primitive_block(fields, pbf::SpecPrimitiveBlock {
            stringtable: Seq::empty(),
            primitivegroup: Seq::empty(),
            granularity: None,
            lat_offset: None,
            lon_offset: None,
            date_granularity: None,
        }),
        None => None,
    }
}

/// Decodes an `OSMData` (primitive) block.
#[verifier::rlimit(60)]
pub(crate) fn parse_primitive_block(s: &[u8]) -> (r: Result<pbf::PrimitiveBlock, WireFault>)
    ensures
        match r {
            Ok(msg) => primitive_block_of(s@) == Some(msg@),
            Err(_) => primitive_block_of(s@) is None,
        },
{
    let len = s.len();
    let mut msg = pbf::PrimitiveBlock {
        stringtable: pbf::StringTable { s: Vec::new() },
        primitivegroup: Vec::new(),
        granularity: None,
        lat_offset: None,
        lon_offset: None,
        date_granularity: None,
    };
    let mut pos: usize = 0;
    proof {
        assert(msg@.stringtable =~= Seq::<Seq<u8>>::empty());
        assert(msg@.primitivegroup =~= Seq::<pbf::SpecPrimitiveGroup>::empty());
    }
    while pos < len
        invariant
            pos <= len,
            len == s@.len(),
            (match fields_at(s@, pos as int, len - pos + 1) {
                Some(fields) => fold_primitive_block(fields, msg@),
                None => None,
            }) == primitive_block_of(s@),
        decreases len - pos,
    {
        let ghost fuel: int = len - pos + 1;
        let (num, wt, vpos) = match read_key(s, pos) {
            Ok(key) => key,
            Err(fault) => {
                assert(fields_at(s@, pos as int, fuel) is None);
                return Err(fault);
            },
        };
        if num == 1 {
            if wt != 2 {
                proof {
                    lemma_fields_at_known(s@, pos as int, fuel, num as int, wt as int, vpos as int);
                }
                return Err(WireFault::InvalidKey);
            }
            let (start, end) = match read_chunk_bounds(s, vpos) {
                Ok(ok) => ok,
                Err(fault) => {
                    proof {
                        lemma_fields_at_known(s@, pos as int, fuel, num as int, wt as int, vpos as int);
                    }
                    return Err(fault);
                },
            };
            proof {
                lemma_fields_at_known(s@, pos as int, fuel, num as int, wt as int, vpos as int);
            }
            let sub = match parse_string_table(slice_subrange(s, start, end)) {
                Ok(ok) => ok,
                Err(fault) => {
                    proof {
                        lemma_fields_at_known(s@, pos as int, fuel, num as int, wt as int, vpos as int);
                    }
                    return Err(fault);
                },
            };
            msg.stringtable = sub;
            pos = end;
        } else if num == 2 {
            if wt != 2 {
                proof {
                    lemma_fields_at_known(s@, pos as int, fuel, num as int, wt as int, vpos as int);
                }
                return Err(WireFault::InvalidKey);
            }
            let (start, end) = match read_chunk_bounds(s, vpos) {
                Ok(ok) => ok,
                Err(fault) => {
                    proof {
                        lemma_fields_at_known(s@, pos as int, fuel, num as int, wt as int, vpos as int);
                    }
                    return Err(fault);
                },
            };
            proof {
                lemma_fields_at_known(s@, pos as int, fuel, num as int, wt as int, vpos as int);
            }
            let sub = match parse_primitive_group(slice_subrange(s, start, end)) {
                Ok(ok) => ok,
                Err(fault) => {
                    proof {
                        lemma_fields_at_known(s@, pos as int, fuel, num as int, wt as int, vpos as int);
                    }
                    return Err(fault);
                },
            };
            let ghost before = msg@;
            msg.primitivegroup.push(sub);
            proof {
                assert(msg@.primitivegroup =~= before.primitivegroup.push(sub@));
            }
            pos = end;
        } else if num == 17 {
            if wt != 0 {
                proof {
                    lemma_fields_at_known(s@, pos as int, fuel, num as int, wt as int, vpos as int);
                }
                return Err(WireFault::InvalidKey);
            }
            let (v, end) = match read_varint(s, vpos) {
                Ok(ok) => ok,
                Err(fault) => {
                    proof {
                        lemma_fields_at_known(s@, pos as int, fuel, num as int, wt as int, vpos as int);
                    }
                    return Err(fault);
                },
            };
            proof {
                lemma_fields_at_known(s@, pos as int, fuel, num as int, wt as int, vpos as int);
                assert(value_at(s@, vpos as int, 0) == WireValue::Uint(v as int));
            }
            msg.granularity = Some(int32_from_varint(v));
            pos = end;
        } else if num == 18 {
            if wt != 0 {
                proof {
                    lemma_fields_at_known(s@, pos as int, fuel, num as int, wt as int, vpos as int);
                }
                return Err(WireFault::InvalidKey);
            }
            let (v, end) = match read_varint(s, vpos) {
                Ok(ok) => ok,
                Err(fault) => {
                    proof {
                        lemma_fields_at_known(s@, pos as int, fuel, num as int, wt as int, vpos as int);
                    }
                    return Err(fault);
                },
            };
            proof {
                lemma_fields_at_known(s@, pos as int, fuel, num as int, wt as int, vpos as int);
                assert(value_at(s@, vpos as int, 0) == WireValue::Uint(v as int));
            }
            msg.date_granularity = Some(int32_from_varint(v));
            pos = end;
        } else if num == 19 {
            if wt != 0 {
                proof {
                    lemma_fields_at_known(s@, pos as int, fuel, num as int, wt as int, vpos as int);
                }
                return Err(WireFault::InvalidKey);
            }
            let (v, end) = match read_varint(s, vpos) {
                Ok(ok) => ok,
                Err(fault) => {
                    proof {
                        lemma_fields_at_known(s@, pos as int, fuel, num as int, wt as int, vpos as int);
                    }
                    return Err(fault);
                },
            };
            proof {
                lemma_fields_at_known(s@, pos as int, fuel, num as int, wt as int, vpos as int);
                assert(value_at(s@, vpos as int, 0) == WireValue::Uint(v as int));
            }
            msg.lat_offset = Some(int64_from_varint(v));
            pos = end;
        } else if num == 20 {
            if wt != 0 {
                proof {
                    lemma_fields_at_known(s@, pos as int, fuel, num as int, wt as int, vpos as int);
                }
                return Err(WireFault::InvalidKey);
            }
            let (v, end) = match read_varint(s, vpos) {
                Ok(ok) => ok,
                Err(fault) => {
                    proof {
                        lemma_fields_at_known(s@, pos as int, fuel, num as int, wt as int, vpos as int);
                    }
                    return Err(fault);
                },
            };
            proof {
                lemma_fields_at_known(s@, pos as int, fuel, num as int, wt as int, vpos as int);
                assert(value_at(s@, vpos as int, 0) == WireValue::Uint(v as int));
            }
            msg.lon_offset = Some(int64_from_varint(v));
            pos = end;
        } else {
            let end = match skip_value(s, vpos, wt) {
                Ok(ok) => ok,
                Err(fault) => {
                    proof {
                        lemma_fields_at_known(s@, pos as int, fuel, num as int, wt as int, vpos as int);
                    }
                    return Err(fault);
                },
            };
            proof {
                lemma_fields_at_known(s@, pos as int, fuel, num as int, wt as int, vpos as int);
            }
            pos = end;
        }
    }
    assert(fields_at(s@, pos as int, 1) == Some(Seq::<(int, WireValue)>::empty()));
    Ok(msg)
}

/// Folds the fields of a header block over an accumulator; later occurrences of a
/// scalar win, repeated fields append, unknown fields are skipped, and a
/// known field of the wrong wire type or with a malformed value fails the
/// message.
pub open spec fn fold_header_block(fields: Seq<(int, WireValue)>, acc: pbf::SpecHeaderBlock) -> Option<pbf::SpecHeaderBlock>
    decreases fields.len(),
{
    if fields.len() == 0 {
        Some(acc)
    } else {
        let (num, val) = fields[0];
        let rest = fields.drop_first();
        if num == 1 {
            match val {
                WireValue::Chunk(bytes) => match header_bbox_of(bytes) {
                    Some(sub) => fold_header_block(rest, pbf::SpecHeaderBlock { bbox: Some(sub), ..acc }),
                    None => None,
                },
                _ => None,
            }
        } else if num == 4 {
            match val {
                WireValue::Chunk(bytes) => if valid_utf8(bytes) {
                    fold_header_block(rest, pbf::SpecHeaderBlock { required_features: acc.required_features.push(decode_utf8(bytes)), ..acc })
                } else {
                    None
                },
                _ => None,
            }
        } else if num == 5 {
            match val {
                WireValue::Chunk(bytes) => if valid_utf8(bytes) {
                    fold_header_block(rest, pbf::SpecHeaderBlock { optional_features: acc.optional_features.push(decode_utf8(bytes)), ..acc })
                } else {
                    None
                },
                _ => None,
            }
        } else if num == 16 {
            match val {
                WireValue::Chunk(bytes) => if valid_utf8(bytes) {
                    fold_header_block(rest, pbf::SpecHeaderBlock { writingprogram: Some(decode_utf8(bytes)), ..acc })
                } else {
                    None
                },
                _ => None,
            }
        } else if num == 17 {
            match val {
                WireValue::Chunk(bytes) => if valid_utf8(bytes) {
                    fold_header_block(rest, pbf::SpecHeaderBlock { source: Some(decode_utf8(bytes)), ..acc })
                } else {
                    None
                },
                _ => None,
            }
        } else if num == 32 {
            match val {
                WireValue::Uint(v) => fold_header_block(rest, pbf::SpecHeaderBlock { osmosis_replication_timestamp: Some(spec_int64(v)), ..acc }),
                _ => None,
            }
        } else if num == 33 {
            match val {
                WireValue::Uint(v) => fold_header_block(rest, pbf::SpecHeaderBlock { osmosis_replication_sequence_number: Some(spec_int64(v)), ..acc }),
                _ => None,
            }
        } else if num == 34 {
            match val {
                WireValue::Chunk(bytes) => if valid_utf8(bytes) {
                    fold_header_block(rest, pbf::SpecHeaderBlock { osmosis_replication_base_url: Some(decode_utf8(bytes)), ..acc })
                } else {
                    None
                },
                _ => None,
            }
        } else {
            fold_header_block(rest, acc)
        }
    }
}

/// The header block `s` decodes to, or `None` when it is malformed.
pub open spec fn header_block_of(s: Seq<u8>) -> Option<pbf::SpecHeaderBlock> {
    match message_fields(s) {
        Some(fields) => fold_header_block(fields, pbf::SpecHeaderBlock {
            bbox: None,
            required_features: Seq::empty(),
            optional_features: Seq::empty(),
            writingprogram: None,
            source: None,
            osmosis_replication_timestamp: None,
            osmosis_replication_sequence_number: None,
            osmosis_replication_base_url: None,
        }),
        None => None,
    }
}

/// Decodes an `OSMHeader` block.
#[verifier::rlimit(60)]
pub(crate) fn parse_header_block(s: &[u8]) -> (r: Result<pbf::HeaderBlock, WireFault>)
    ensures
        match r {
            Ok(msg) => header_block_of(s@) == Some(msg@),
            Err(_) => header_block_of(s@) is None,
        },
{
    let len = s.len();
    let mut msg = pbf::HeaderBlock {
        bbox: None,
        required_features: Vec::new(),
        optional_features: Vec::new(),
        writingprogram: None,
        source: None,
        osmosis_replication_timestamp: None,
        osmosis_replication_sequence_number: None,
        osmosis_replication_base_url: None,
    };
    let mut pos: usize = 0;
    proof {
        assert(msg@.required_features =~= Seq::<Seq<char>>::empty());
        assert(msg@.optional_features =~= Seq::<Seq<char>>::empty());
    }
    while pos < len
        invariant
            pos <= len,
            len == s@.len(),
            (match fields_at(s@, pos as int, len - pos + 1) {
                Some(fields) => fold_header_block(fields, msg@),
                None => None,
            }) == header_block_of(s@),
        decreases len - pos,
    {
        let ghost fuel: int = len - pos + 1;
        let (num, wt, vpos) = match read_key(s, pos) {
            Ok(key) => key,
            Err(fault) => {
                assert(fields_at(s@, pos as int, fuel) is None);
                return Err(fault);
            },
        };
        if num == 1 {
            if wt != 2 {
                proof {
                    lemma_fields_at_known(s@, pos as int, fuel, num as int, wt as int, vpos as int);
                }
                return Err(WireFault::InvalidKey);
            }
            let (start, end) = match read_chunk_bounds(s, vpos) {
                Ok(ok) => ok,
                Err(fault) => {
                    proof {
                        lemma_fields_at_known(s@, pos as int, fuel, num as int, wt as int, vpos as int);
                    }
                    return Err(fault);
                },
            };
            proof {
                lemma_fields_at_known(s@, pos as int, fuel, num as int, wt as int, vpos as int);
            }
            let sub = match parse_header_bbox(slice_subrange(s, start, end)) {
                Ok(ok) => ok,
                Err(fault) => {
                    proof {
                        lemma_fields_at_known(s@, pos as int, fuel, num as int, wt as int, vpos as int);
                    }
                    return Err(fault);
                },
            };
            msg.bbox = Some(sub);
            pos = end;
        } else if num == 4 {
            if wt != 2 {
                proof {
                    lemma_fields_at_known(s@, pos as int, fuel, num as int, wt as int, vpos as int);
                }
                return Err(WireFault::InvalidKey);
            }
            let (start, end) = match read_chunk_bounds(s, vpos) {
                Ok(ok) => ok,
                Err(fault) => {
                    proof {
                        lemma_fields_at_known(s@, pos as int, fuel, num as int, wt as int, vpos as int);
                    }
                    return Err(fault);
                },
            };
            proof {
                lemma_fields_at_known(s@, pos as int, fuel, num as int, wt as int, vpos as int);
            }
            let text = match utf8_field(slice_subrange(s, start, end)) {
                Ok(ok) => ok,
                Err(fault) => {
                    proof {
                        lemma_fields_at_known(s@, pos as int, fuel, num as int, wt as int, vpos as int);
                    }
                    return Err(fault);
                },
            };
            let ghost before = msg@;
            msg.required_features.push(text);
            proof {
                assert(msg@.required_features =~= before.required_features.push(decode_utf8(s@.subrange(
                    start as int,
                    end as int,
                ))));
            }
            pos = end;
        } else if num == 5 {
            if wt != 2 {
                proof {
                    lemma_fields_at_known(s@, pos as int, fuel, num as int, wt as int, vpos as int);
                }
                return Err(WireFault::InvalidKey);
            }
            let (start, end) = match read_chunk_bounds(s, vpos) {
                Ok(ok) => ok,
                Err(fault) => {
                    proof {
                        lemma_fields_at_known(s@, pos as int, fuel, num as int, wt as int, vpos as int);
                    }
                    return Err(fault);
                },
            };
            proof {
                lemma_fields_at_known(s@, pos as int, fuel, num as int, wt as int, vpos as int);
            }
            let text = match utf8_field(slice_subrange(s, start, end)) {
                Ok(ok) => ok,
                Err(fault) => {
                    proof {
                        lemma_fields_at_known(s@, pos as int, fuel, num as int, wt as int, vpos as int);
                    }
                    return Err(fault);
                },
            };
            let ghost before = msg@;
            msg.optional_features.push(text);
            proof {
                assert(msg@.optional_features =~= before.optional_features.push(decode_utf8(s@.subrange(
                    start as int,
                    end as int,
                ))));
            }
            pos = end;
        } else if num == 16 {
            if wt != 2 {
                proof {
                    lemma_fields_at_known(s@, pos as int, fuel, num as int, wt as int, vpos as int);
                }
                return Err(WireFault::InvalidKey);
            }
            let (start, end) = match read_chunk_bounds(s, vpos) {
                Ok(ok) => ok,
                Err(fault) => {
                    proof {
                        lemma_fields_at_known(s@, pos as int, fuel, num as int, wt as int, vpos as int);
                    }
                    return Err(fault);
                },
            };
            proof {
                lemma_fields_at_known(s@, pos as int, fuel, num as int, wt as int, vpos as int);
            }
            let text = match utf8_field(slice_subrange(s, start, end)) {
                Ok(ok) => ok,
                Err(fault) => {
                    proof {
                        lemma_fields_at_known(s@, pos as int, fuel, num as int, wt as int, vpos as int);
                    }
                    return Err(fault);
                },
            };
            msg.writingprogram = Some(text);
            pos = end;
        } else if num == 17 {
            if wt != 2 {
                proof {
                    lemma_fields_at_known(s@, pos as int, fuel, num as int, wt as int, vpos as int);
                }
                return Err(WireFault::InvalidKey);
            }
            let (start, end) = match read_chunk_bounds(s, vpos) {
                Ok(ok) => ok,
                Err(fault) => {
                    proof {
                        lemma_fields_at_known(s@, pos as int, fuel, num as int, wt as int, vpos as int);
                    }
                    return Err(fault);
                },
            };
            proof {
                lemma_fields_at_known(s@, pos as int, fuel, num as int, wt as int, vpos as int);
            }
            let text = match utf8_field(slice_subrange(s, start, end)) {
                Ok(ok) => ok,
                Err(fault) => {
                    proof {
                        lemma_fields_at_known(s@, pos as int, fuel, num as int, wt as int, vpos as int);
                    }
                    return Err(fault);
                },
            };
            msg.source = Some(text);
            pos = end;
        } else if num == 32 {
            if wt != 0 {
                proof {
                    lemma_fields_at_known(s@, pos as int, fuel, num as int, wt as int, vpos as int);
                }
                return Err(WireFault::InvalidKey);
            }
            let (v, end) = match read_varint(s, vpos) {
                Ok(ok) => ok,
                Err(fault) => {
                    proof {
                        lemma_fields_at_known(s@, pos as int, fuel, num as int, wt as int, vpos as int);
                    }
                    return Err(fault);
                },
            };
            proof {
                lemma_fields_at_known(s@, pos as int, fuel, num as int, wt as int, vpos as int);
                assert(value_at(s@, vpos as int, 0) == WireValue::Uint(v as int));
            }
            msg.osmosis_replication_timestamp = Some(int64_from_varint(v));
            pos = end;
        } else if num == 33 {
            if wt != 0 {
                proof {
                    lemma_fields_at_known(s@, pos as int, fuel, num as int, wt as int, vpos as int);
                }
                return Err(WireFault::InvalidKey);
            }
            let (v, end) = match read_varint(s, vpos) {
                Ok(ok) => ok,
                Err(fault) => {
                    proof {
                        lemma_fields_at_known(s@, pos as int, fuel, num as int, wt as int, vpos as int);
                    }
                    return Err(fault);
                },
            };
            proof {
                lemma_fields_at_known(s@, pos as int, fuel, num as int, wt as int, vpos as int);
                assert(value_at(s@, vpos as int, 0) == WireValue::Uint(v as int));
            }
            msg.osmosis_replication_sequence_number = Some(int64_from_varint(v));
            pos = end;
        } else if num == 34 {
            if wt != 2 {
                proof {
                    lemma_fields_at_known(s@, pos as int, fuel, num as int, wt as int, vpos as int);
                }
                return Err(WireFault::InvalidKey);
            }
            let (start, end) = match read_chunk_bounds(s, vpos) {
                Ok(ok) => ok,
                Err(fault) => {
                    proof {
                        lemma_fields_at_known(s@, pos as int, fuel, num as int, wt as int, vpos as int);
                    }
                    return Err(fault);
                },
            };
            proof {
                lemma_fields_at_known(s@, pos as int, fuel, num as int, wt as int, vpos as int);
            }
            let text = match utf8_field(slice_subrange(s, start, end)) {
                Ok(ok) => ok,
                Err(fault) => {
                    proof {
                        lemma_fields_at_known(s@, pos as int, fuel, num as int, wt as int, vpos as int);
                    }
                    return Err(fault);
                },
            };
            msg.osmosis_replication_base_url = Some(text);
            pos = end;
        } else {
            let end = match skip_value(s, vpos, wt) {
                Ok(ok) => ok,
                Err(fault) => {
                    proof {
                        lemma_fields_at_known(s@, pos as int, fuel, num as int, wt as int, vpos as int);
                    }
                    return Err(fault);
                },
            };
            proof {
                lemma_fields_at_known(s@, pos as int, fuel, num as int, wt as int, vpos as int);
            }
            pos = end;
        }
    }
    assert(fields_at(s@, pos as int, 1) == Some(Seq::<(int, WireValue)>::empty()));
    Ok(msg)
}


} // verus!
