//! Decoding the blob envelope: the per-blob header and the blob body,
//! verified field by field against the wire model.

use crate::error::WireFault;
use crate::pbf;
use crate::wire::fields_at;
use crate::wire::int32_of;
use crate::wire::int32_from_varint;
use crate::wire::lemma_fields_at_known;
use crate::wire::message_fields;
use crate::wire::read_chunk_bounds;
use crate::wire::read_key;
use crate::wire::read_varint;
use crate::wire::skip_value;
use crate::wire::value_at;
use crate::wire::WireValue;
use vstd::prelude::*;

verus! {

/// Spec model of a decoded blob header: the raw type tag and the declared
/// size of the blob body that follows.
pub struct SpecBlobHeader {
    pub type_bytes: Seq<u8>,
    pub datasize: int,
}

/// Folds the fields of a blob header over an accumulator: field 1 carries
/// the type tag, field 3 the declared body size; later occurrences win,
/// unknown fields are skipped, and a known field of the wrong wire type
/// fails the message.
pub open spec fn fold_blob_header(
    fields: Seq<(int, WireValue)>,
    acc: SpecBlobHeader,
) -> Option<SpecBlobHeader>
    decreases fields.len(),
{
    if fields.len() == 0 {
        Some(acc)
    } else {
        let (num, val) = fields[0];
        let rest = fields.drop_first();
        if num == 1 {
            match val {
                WireValue::Chunk(bytes) => fold_blob_header(
                    rest,
                    SpecBlobHeader { type_bytes: bytes, datasize: acc.datasize },
                ),
                _ => None,
            }
        } else if num == 3 {
            match val {
                WireValue::Uint(v) => fold_blob_header(
                    rest,
                    SpecBlobHeader { type_bytes: acc.type_bytes, datasize: int32_of(v) },
                ),
                _ => None,
            }
        } else {
            fold_blob_header(rest, acc)
        }
    }
}

/// `fold_blob_header` lifted over a possibly malformed field sequence.
pub open spec fn fold_opt_blob_header(
    fields: Option<Seq<(int, WireValue)>>,
    acc: SpecBlobHeader,
) -> Option<SpecBlobHeader> {
    match fields {
        Some(fs) => fold_blob_header(fs, acc),
        None => None,
    }
}

/// The decoded blob header of `s`, or `None` when the message is malformed.
pub open spec fn blob_header_of(s: Seq<u8>) -> Option<SpecBlobHeader> {
    fold_opt_blob_header(
        message_fields(s),
        SpecBlobHeader { type_bytes: Seq::empty(), datasize: 0 },
    )
}

/// Decodes a blob header message.
pub(crate) fn parse_blob_header(s: &[u8]) -> (r: Result<pbf::BlobHeader, WireFault>)
    ensures
        match r {
            Ok(header) => blob_header_of(s@) matches Some(m) && header.type_bytes@ == m.type_bytes
                && header.datasize as int == m.datasize,
            Err(_) => blob_header_of(s@) is None,
        },
{
    let len = s.len();
    let mut type_bytes: Vec<u8> = Vec::new();
    let mut datasize: i32 = 0;
    let mut pos: usize = 0;
    while pos < len
        invariant
            pos <= len,
            len == s@.len(),
            fold_opt_blob_header(
                fields_at(s@, pos as int, len - pos + 1),
                SpecBlobHeader { type_bytes: type_bytes@, datasize: datasize as int },
            ) == blob_header_of(s@),
        decreases len - pos,
    {
        let ghost fuel: int = len - pos + 1;
        let (num, wt, vpos) = match read_key(s, pos) {
            Ok(key) => key,
            Err(fault) => {
                assert(fields_at(s@, pos as int, fuel) is None);
                return Err(fault);
            },
        };
        if num == 1 {
            if wt != 2 {
                proof {
                    lemma_fields_at_known(s@, pos as int, fuel, num as int, wt as int, vpos as int);
                }
                return Err(WireFault::InvalidKey);
            }
            let (start, end) = match read_chunk_bounds(s, vpos) {
                Ok(bounds) => bounds,
                Err(fault) => {
                    assert(fields_at(s@, pos as int, fuel) is None);
                    return Err(fault);
                },
            };
            proof {
                lemma_fields_at_known(s@, pos as int, fuel, num as int, wt as int, vpos as int);
            }
            type_bytes = vstd::slice::slice_to_vec(vstd::slice::slice_subrange(s, start, end));
            pos = end;
        } else if num == 3 {
            if wt != 0 {
                proof {
                    lemma_fields_at_known(s@, pos as int, fuel, num as int, wt as int, vpos as int);
                }
                return Err(WireFault::InvalidKey);
            }
            let (v, end) = match read_varint(s, vpos) {
                Ok(varint) => varint,
                Err(fault) => {
                    assert(fields_at(s@, pos as int, fuel) is None);
                    return Err(fault);
                },
            };
            proof {
                lemma_fields_at_known(s@, pos as int, fuel, num as int, wt as int, vpos as int);
                assert(value_at(s@, vpos as int, 0) == WireValue::Uint(v as int));
            }
            datasize = int32_from_varint(v);
            pos = end;
        } else {
            let end = match skip_value(s, vpos, wt) {
                Ok(end) => end,
                Err(fault) => {
                    assert(fields_at(s@, pos as int, fuel) is None);
                    return Err(fault);
                },
            };
            proof {
                lemma_fields_at_known(s@, pos as int, fuel, num as int, wt as int, vpos as int);
            }
            pos = end;
        }
    }
    assert(fields_at(s@, pos as int, 1) == Some(Seq::<(int, WireValue)>::empty()));
    Ok(pbf::BlobHeader { type_bytes, datasize })
}

/// Spec model of a decoded blob body: the declared uncompressed size and the
/// payload variant present last, named by its field number.
pub struct SpecBlob {
    pub raw_size: Option<int>,
    pub data: Option<(int, Seq<u8>)>,
}

/// Whether `num` is one of the payload variant fields of a blob.
pub open spec fn is_blob_data_field(num: int) -> bool {
    num == 1 || num == 3 || num == 4 || num == 5 || num == 6 || num == 7
}

/// Folds the fields of a blob over an accumulator: field 2 carries the
/// declared uncompressed size, the payload variant fields overwrite each
/// other, unknown fields are skipped, and a known field of the wrong wire
/// type fails the message.
pub open spec fn fold_blob(fields: Seq<(int, WireValue)>, acc: SpecBlob) -> Option<SpecBlob>
    decreases fields.len(),
{
    if fields.len() == 0 {
        Some(acc)
    } else {
        let (num, val) = fields[0];
        let rest = fields.drop_first();
        if num == 2 {
            match val {
                WireValue::Uint(v) => fold_blob(
                    rest,
                    SpecBlob { raw_size: Some(int32_of(v)), data: acc.data },
                ),
                _ => None,
            }
        } else if is_blob_data_field(num) {
            match val {
                WireValue::Chunk(bytes) => fold_blob(
                    rest,
                    SpecBlob { raw_size: acc.raw_size, data: Some((num, bytes)) },
                ),
                _ => None,
            }
        } else {
            fold_blob(rest, acc)
        }
    }
}

/// `fold_blob` lifted over a possibly malformed field sequence.
pub open spec fn fold_opt_blob(fields: Option<Seq<(int, WireValue)>>, acc: SpecBlob) -> Option<
    SpecBlob,
> {
    match fields {
        Some(fs) => fold_blob(fs, acc),
        None => None,
    }
}

/// The decoded blob body of `s`, or `None` when the message is malformed.
pub open spec fn blob_of(s: Seq<u8>) -> Option<SpecBlob> {
    fold_opt_blob(message_fields(s), SpecBlob { raw_size: None, data: None })
}

/// Whether the decoded payload variant `data` carries the variant and bytes
/// of the model `m`.
pub open spec fn blob_data_matches(data: Option<pbf::BlobData>, m: Option<(int, Seq<u8>)>) -> bool {
    match (data, m) {
        (None, None) => true,
        (Some(pbf::BlobData::Raw(b)), Some((num, bytes))) => num == 1 && b@ == bytes,
        (Some(pbf::BlobData::ZlibData(b)), Some((num, bytes))) => num == 3 && b@ == bytes,
        (Some(pbf::BlobData::LzmaData(b)), Some((num, bytes))) => num == 4 && b@ == bytes,
        (Some(pbf::BlobData::ObsoleteBzip2Data(b)), Some((num, bytes))) => num == 5 && b@ == bytes,
        (Some(pbf::BlobData::Lz4Data(b)), Some((num, bytes))) => num == 6 && b@ == bytes,
        (Some(pbf::BlobData::ZstdData(b)), Some((num, bytes))) => num == 7 && b@ == bytes,
        _ => false,
    }
}

/// Whether the decoded declared size `raw_size` matches the model `m`.
pub open spec fn raw_size_matches(raw_size: Option<i32>, m: Option<int>) -> bool {
    match (raw_size, m) {
        (None, None) => true,
        (Some(r), Some(v)) => r as int == v,
        _ => false,
    }
}

/// Decodes a blob body message.
pub(crate) fn parse_blob(s: &[u8]) -> (r: Result<pbf::Blob, WireFault>)
    ensures
        match r {
            Ok(blob) => blob_of(s@) matches Some(m) && raw_size_matches(blob.raw_size, m.raw_size)
                && blob_data_matches(blob.data, m.data),
            Err(_) => blob_of(s@) is None,
        },
{
    let len = s.len();
    let mut raw_size: Option<i32> = None;
    let mut data: Option<pbf::BlobData> = None;
    let ghost mut m_raw_size: Option<int> = None;
    let ghost mut m_data: Option<(int, Seq<u8>)> = None;
    let mut pos: usize = 0;
    while pos < len
        invariant
            pos <= len,
            len == s@.len(),
            raw_size_matches(raw_size, m_raw_size),
            blob_data_matches(data, m_data),
            fold_opt_blob(
                fields_at(s@, pos as int, len - pos + 1),
                SpecBlob { raw_size: m_raw_size, data: m_data },
            ) == blob_of(s@),
        decreases len - pos,
    {
        let ghost fuel: int = len - pos + 1;
        let (num, wt, vpos) = match read_key(s, pos) {
            Ok(key) => key,
            Err(fault) => {
                assert(fields_at(s@, pos as int, fuel) is None);
                return Err(fault);
            },
        };
        if num == 2 {
            if wt != 0 {
                proof {
                    lemma_fields_at_known(s@, pos as int, fuel, num as int, wt as int, vpos as int);
                }
                return Err(WireFault::InvalidKey);
            }
            let (v, end) = match read_varint(s, vpos) {
                Ok(varint) => varint,
                Err(fault) => {
                    assert(fields_at(s@, pos as int, fuel) is None);
                    return Err(fault);
                },
            };
            proof {
                lemma_fields_at_known(s@, pos as int, fuel, num as int, wt as int, vpos as int);
                assert(value_at(s@, vpos as int, 0) == WireValue::Uint(v as int));
            }
            raw_size = Some(int32_from_varint(v));
            proof {
                m_raw_size = Some(int32_of(v as int));
            }
            pos = end;
        } else if num == 1 || num == 3 || num == 4 || num == 5 || num == 6 || num == 7 {
            if wt != 2 {
                proof {
                    lemma_fields_at_known(s@, pos as int, fuel, num as int, wt as int, vpos as int);
                }
                return Err(WireFault::InvalidKey);
            }
            let (start, end) = match read_chunk_bounds(s, vpos) {
                Ok(bounds) => bounds,
                Err(fault) => {
                    assert(fields_at(s@, pos as int, fuel) is None);
                    return Err(fault);
                },
            };
            proof {
                lemma_fields_at_known(s@, pos as int, fuel, num as int, wt as int, vpos as int);
            }
            let bytes = vstd::slice::slice_to_vec(vstd::slice::slice_subrange(s, start, end));
            data = if num == 1 {
                Some(pbf::BlobData::Raw(bytes))
            } else if num == 3 {
                Some(pbf::BlobData::ZlibData(bytes))
            } else if num == 4 {
                Some(pbf::BlobData::LzmaData(bytes))
            } else if num == 5 {
                Some(pbf::BlobData::ObsoleteBzip2Data(bytes))
            } else if num == 6 {
                Some(pbf::BlobData::Lz4Data(bytes))
            } else {
                Some(pbf::BlobData::ZstdData(bytes))
            };
            proof {
                m_data = Some((num as int, s@.subrange(start as int, end as int)));
            }
            pos = end;
        } else {
            let end = match skip_value(s, vpos, wt) {
                Ok(end) => end,
                Err(fault) => {
                    assert(fields_at(s@, pos as int, fuel) is None);
                    return Err(fault);
                },
            };
            proof {
                lemma_fields_at_known(s@, pos as int, fuel, num as int, wt as int, vpos as int);
            }
            pos = end;
        }
    }
    assert(fields_at(s@, pos as int, 1) == Some(Seq::<(int, WireValue)>::empty()));
    Ok(pbf::Blob { raw_size, data })
}

} // verus!
