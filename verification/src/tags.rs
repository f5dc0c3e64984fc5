//! Lazily resolving tag key/value index pairs against a string table.

use crate::error::Error;
use crate::error::LogicFault;
use crate::pbf;
use vstd::prelude::*;
use vstd::utf8::decode_utf8;
use vstd::utf8::valid_utf8;

verus! {

/// The byte strings of a string table, one per entry.
pub open spec fn table_view(table: pbf::StringTable) -> Seq<Seq<u8>> {
    table.s@.map_values(|entry: Vec<u8>| entry@)
}

/// One side of a packed key/value index: the index itself when it is
/// non-negative, the fault it carries otherwise.
pub open spec fn packed_entry(index: i32) -> Result<int, LogicFault> {
    if index >= 0 {
        Ok(index as int)
    } else {
        Err(LogicFault::InvalidIndex { index })
    }
}

/// Resolution of one side of a tag pair: the index is bounds-checked against
/// the table, then the referenced bytes are validated as UTF-8; each failure
/// carries the offending index, and the table length for bounds failures.
pub open spec fn resolved_entry(table: Seq<Seq<u8>>, entry: Result<int, LogicFault>) -> Result<
    Seq<char>,
    Error,
> {
    match entry {
        Err(fault) => Err(Error::LogicError(fault)),
        Ok(idx) => if !(0 <= idx < table.len()) {
            Err(
                Error::LogicError(
                    LogicFault::IndexOutOfBounds {
                        index: idx as usize,
                        table_len: table.len() as usize,
                    },
                ),
            )
        } else if !valid_utf8(table[idx]) {
            Err(Error::LogicError(LogicFault::InvalidUtf8 { index: idx as usize }))
        } else {
            Ok(decode_utf8(table[idx]))
        },
    }
}

/// Whether the string side `r` carries exactly the outcome `expected`.
pub open spec fn side_matches(r: Result<&str, Error>, expected: Result<Seq<char>, Error>) -> bool {
    match (r, expected) {
        (Ok(s), Ok(chars)) => s@ == chars,
        (Err(e), Err(f)) => e == f,
        _ => false,
    }
}

/// Relies on str::from_utf8: it returns the string over `bytes` exactly when
/// they are valid UTF-8, and fails otherwise.
#[verifier::external_body]
pub(crate) fn utf8_from_bytes(bytes: &[u8]) -> (r: Option<&str>)
    ensures
        r is Some <==> valid_utf8(bytes@),
        r matches Some(s) ==> s@ == decode_utf8(bytes@),
{
    core::str::from_utf8(bytes).ok()
}

/// Where the key/value indices of a [`TagReader`] come from: two parallel
/// slices, or one packed interleaved slice of a dense node.
#[derive(Clone, Copy)]
enum TagSource<'a> {
    Split { keys: &'a [u32], vals: &'a [u32] },
    Packed { key_value_indices: &'a [i32] },
}

/// Generalized implementation for reading normal or densely encoded tags
/// from string tables.
///
/// Use [`new_tag_reader`] or
/// [`new_dense_tag_reader`](crate::dense::new_dense_tag_reader) to construct
/// it. Resolution happens only on demand, pair by pair, and each side of a
/// pair fails independently: a bad key never suppresses a valid paired value.
pub struct TagReader<'a> {
    string_table: &'a pbf::StringTable,
    source: TagSource<'a>,
    pos: usize,
}

impl<'a> TagReader<'a> {
    /// The string table the indices resolve against, one byte string per entry.
    pub closed spec fn table(self) -> Seq<Seq<u8>> {
        table_view(*self.string_table)
    }

    /// The index pairs the reader walks, in input order: each side holds a
    /// table index, or the fault of a negative packed index.
    pub closed spec fn pairs(self) -> Seq<(Result<int, LogicFault>, Result<int, LogicFault>)> {
        match self.source {
            TagSource::Split { keys, vals } => Seq::new(
                if keys@.len() <= vals@.len() {
                    keys@.len()
                } else {
                    vals@.len()
                },
                |i: int| (Ok(keys@[i] as int), Ok(vals@[i] as int)),
            ),
            TagSource::Packed { key_value_indices } => Seq::new(
                (key_value_indices@.len() / 2) as nat,
                |i: int|
                    (
                        packed_entry(key_value_indices@[2 * i]),
                        packed_entry(key_value_indices@[2 * i + 1]),
                    ),
            ),
        }
    }

    /// Position of the next pair to resolve.
    pub closed spec fn cursor(self) -> int {
        self.pos as int
    }

    /// Resolves the next tag as a (key, value) pair, each side containing
    /// either a string or the error of its own resolution; `None` once the
    /// pairs are exhausted.
    pub fn next(&mut self) -> (r: Option<(Result<&'a str, Error>, Result<&'a str, Error>)>)
        ensures
            final(self).table() == old(self).table(),
            final(self).pairs() == old(self).pairs(),
            r is None <==> old(self).cursor() >= old(self).pairs().len(),
            r is None ==> *final(self) == *old(self),
            old(self).cursor() < old(self).pairs().len() ==> ({
                let i = old(self).cursor();
                &&& final(self).cursor() == i + 1
                &&& match r {
                    Some((key, value)) => {
                        &&& side_matches(
                            key,
                            resolved_entry(old(self).table(), old(self).pairs()[i].0),
                        )
                        &&& side_matches(
                            value,
                            resolved_entry(old(self).table(), old(self).pairs()[i].1),
                        )
                    },
                    None => false,
                }
            }),
    {
        let entries: (Result<usize, LogicFault>, Result<usize, LogicFault>) = match self.source {
            TagSource::Split { keys, vals } => {
                if self.pos < keys.len() && self.pos < vals.len() {
                    (Ok(keys[self.pos] as usize), Ok(vals[self.pos] as usize))
                } else {
                    return None;
                }
            },
            TagSource::Packed { key_value_indices } => {
                if self.pos < key_value_indices.len() / 2 {
                    (
                        convert_idx(key_value_indices[2 * self.pos]),
                        convert_idx(key_value_indices[2 * self.pos + 1]),
                    )
                } else {
                    return None;
                }
            },
        };
        self.pos = self.pos + 1;
        let key = match entries.0 {
            Ok(key_idx) => decode_string(self.string_table, key_idx),
            Err(fault) => Err(Error::LogicError(fault)),
        };
        let value = match entries.1 {
            Ok(value_idx) => decode_string(self.string_table, value_idx),
            Err(fault) => Err(Error::LogicError(fault)),
        };
        Some((key, value))
    }
}

/// Bounds-checks `index` against the table and validates the referenced
/// bytes as UTF-8.
fn decode_string<'a>(string_table: &'a pbf::StringTable, index: usize) -> (r: Result<&'a str, Error>)
    ensures
        side_matches(r, resolved_entry(table_view(*string_table), Ok(index as int))),
{
    if index < string_table.s.len() {
        let bytes: &Vec<u8> = &string_table.s[index];
        assert(table_view(*string_table)[index as int] == bytes@);
        match utf8_from_bytes(bytes.as_slice()) {
            Some(utf8_string) => Ok(utf8_string),
            None => Err(Error::LogicError(LogicFault::InvalidUtf8 { index })),
        }
    } else {
        Err(
            Error::LogicError(
                LogicFault::IndexOutOfBounds { index, table_len: string_table.s.len() },
            ),
        )
    }
}

/// Converts one packed key/value index, rejecting negative values.
fn convert_idx(index: i32) -> (r: Result<usize, LogicFault>)
    ensures
        index >= 0 ==> r == Ok::<usize, LogicFault>(index as usize),
        index < 0 ==> r == Err::<usize, LogicFault>(LogicFault::InvalidIndex { index }),
{
    if index >= 0 {
        Ok(index as usize)
    } else {
        Err(LogicFault::InvalidIndex { index })
    }
}

/// Constructs a new `TagReader` from key and value index slices, and a
/// corresponding string table. Pairs are drawn from equal positions of the
/// two slices, up to the shorter one.
pub fn new_tag_reader<'a>(
    string_table: &'a pbf::StringTable,
    key_indices: &'a [u32],
    value_indices: &'a [u32],
) -> (r: TagReader<'a>)
    ensures
        r.table() == table_view(*string_table),
        r.cursor() == 0,
        r.pairs().len() == (if key_indices@.len() <= value_indices@.len() {
            key_indices@.len()
        } else {
            value_indices@.len()
        }),
        forall|i: int|
            0 <= i < r.pairs().len() ==> r.pairs()[i] == (
                Ok::<int, LogicFault>(key_indices@[i] as int),
                Ok::<int, LogicFault>(value_indices@[i] as int),
            ),
{
    TagReader {
        string_table,
        source: TagSource::Split { keys: key_indices, vals: value_indices },
        pos: 0,
    }
}

/// Constructs a new `TagReader` from a dense key/value index slice, and a
/// corresponding string table.
///
/// See [`DenseNodeReader::new`](crate::dense::DenseNodeReader) and
/// [`DenseNode::key_value_indices`](crate::dense::DenseNode).
pub fn new_dense_tag_reader<'a>(
    string_table: &'a pbf::StringTable,
    key_value_indices: &'a [i32],
) -> (r: TagReader<'a>)
    ensures
        r.table() == table_view(*string_table),
        r.cursor() == 0,
        r.pairs().len() == key_value_indices@.len() / 2,
        forall|i: int|
            0 <= i < r.pairs().len() ==> r.pairs()[i] == (
                packed_entry(key_value_indices@[2 * i]),
                packed_entry(key_value_indices@[2 * i + 1]),
            ),
{
    TagReader { string_table, source: TagSource::Packed { key_value_indices }, pos: 0 }
}

} // verus!
