//! Decompressing framed blobs and decoding them into typed blocks.

use crate::decode::header_block_of;
use crate::decode::parse_header_block;
use crate::decode::parse_primitive_block;
use crate::decode::primitive_block_of;
use crate::envelope::blob_of;
use crate::envelope::parse_blob;
use crate::envelope::SpecBlob;
use crate::error::DecompressionError;
use crate::error::Error;
use crate::framer::BlockType;
use crate::framer::RawBlock;
use crate::pbf;
use vstd::prelude::*;

verus! {

/// Blob compression method.
#[derive(Clone, Copy, Debug, PartialEq, Eq, Structural)]
pub enum CompressionMethod {
    /// LZ4
    Lz4,
    /// LZMA
    Lzma,
    /// ZLib
    Zlib,
    /// Zstandard
    Zstd,
}

/// Trait for custom decompression support.
///
/// An implementation names, per method, the decompressed stream its codec
/// yields for an input, and `decompress` must fill the whole output buffer
/// with a prefix of that stream, or refuse the method.
pub trait Decompressor {
    /// The stream of bytes that decompressing `input` with `method` yields.
    spec fn decompressed(method: CompressionMethod, input: Seq<u8>) -> Seq<u8>;

    /// Decompresses `input` blob into the preallocated `output` buffer,
    /// overwriting it entirely and never changing its length.
    fn decompress(method: CompressionMethod, input: &[u8], output: &mut Vec<u8>) -> (r: Result<
        (),
        DecompressionError,
    >)
        ensures
            final(output)@.len() == old(output)@.len(),
            r is Ok ==> old(output)@.len() <= Self::decompressed(method, input@).len()
                && final(output)@ == Self::decompressed(method, input@).take(
                old(output)@.len() as int,
            ),
    ;
}

/// The bytes that flate2's zlib decoder yields for `input` before it
/// reports an error or the end of the stream: a function of the input bytes
/// alone.
pub uninterp spec fn zlib_inflate(input: Seq<u8>) -> Seq<u8>;

/// Relies on flate2's read::ZlibDecoder, driven by std's read_exact: the
/// call succeeds exactly when the decoder yields at least `output.len()`
/// bytes, and then the output slice holds exactly the first `output.len()`
/// of them; the stream yielded is a deterministic function of the input
/// bytes, and the buffer's length is never changed.
#[verifier::external_body]
fn inflate_zlib_into(input: &[u8], output: &mut Vec<u8>) -> (r: Result<(), String>)
    ensures
        final(output)@.len() == old(output)@.len(),
        r is Ok <==> old(output)@.len() <= zlib_inflate(input@).len(),
        r is Ok ==> final(output)@ == zlib_inflate(input@).take(old(output)@.len() as int),
{
    let mut decoder = flate2::read::ZlibDecoder::new(input);
    match std::io::Read::read_exact(&mut decoder, output.as_mut_slice()) {
        Ok(()) => Ok(()),
        Err(e) => Err(format!("{e}")),
    }
}

/// The default blob decompressor.
///
/// Supports ZLib decompression.
pub struct DefaultDecompressor;

impl Decompressor for DefaultDecompressor {
    open spec fn decompressed(method: CompressionMethod, input: Seq<u8>) -> Seq<u8> {
        match method {
            CompressionMethod::Zlib => zlib_inflate(input),
            _ => Seq::empty(),
        }
    }

    fn decompress(method: CompressionMethod, input: &[u8], output: &mut Vec<u8>) -> (r: Result<
        (),
        DecompressionError,
    >)
        ensures
            method != CompressionMethod::Zlib ==> r == Err::<(), DecompressionError>(
                DecompressionError::UnsupportedCompression,
            ) && *final(output) == *old(output),
            method == CompressionMethod::Zlib ==> (r is Ok <==> old(output)@.len()
                <= zlib_inflate(input@).len()),
            method == CompressionMethod::Zlib && !(r is Ok) ==> (r matches Err(e)
                && e is InternalError),
    {
        match method {
            CompressionMethod::Zlib => match inflate_zlib_into(input, output) {
                Ok(()) => Ok(()),
                Err(message) => Err(DecompressionError::InternalError(message)),
            },
            _ => Err(DecompressionError::UnsupportedCompression),
        }
    }
}

/// Result of [`BlockParser::parse_block`].
pub enum Block {
    /// A parsed `OSMHeader` block.
    Header(pbf::HeaderBlock),
    /// A parsed `OSMData` (primitive) block.
    Primitive(pbf::PrimitiveBlock),
    /// An unknown block's binary data, copied out of the reusable buffer.
    Unknown(Vec<u8>),
}

/// The compression method a payload variant field number stands for.
pub open spec fn method_of(num: int) -> CompressionMethod {
    if num == 3 {
        CompressionMethod::Zlib
    } else if num == 4 {
        CompressionMethod::Lzma
    } else if num == 6 {
        CompressionMethod::Lz4
    } else {
        CompressionMethod::Zstd
    }
}

/// A byte sequence resized to `n` bytes: truncated, or padded with zeros.
pub open spec fn resized(s: Seq<u8>, n: int) -> Seq<u8> {
    if n <= s.len() {
        s.subrange(0, n)
    } else {
        s + Seq::new((n - s.len()) as nat, |i: int| 0u8)
    }
}

/// The length the parser prepares its buffer to before filling it: the
/// declared uncompressed size when one is present, the buffer's previous
/// length otherwise.
pub open spec fn prepared_len(m: SpecBlob, old_len: int) -> int {
    match m.raw_size {
        Some(n) => n,
        None => old_len,
    }
}

/// What decoding the filled buffer `content` as a block of kind `kind`
/// yields: unknown blocks surface the bytes themselves; header and primitive
/// blocks decode to exactly the model of the buffer
/// ([`header_block_of`](crate::decode::header_block_of),
/// [`primitive_block_of`](crate::decode::primitive_block_of)), and fail with
/// a parse error exactly when the model rejects the buffer.
pub open spec fn typed_outcome(kind: BlockType, content: Seq<u8>, r: Result<Block, Error>) -> bool {
    match kind {
        BlockType::Unknown => r matches Ok(b) && b matches Block::Unknown(bytes) && bytes@
            == content,
        BlockType::Header => match r {
            Ok(b) => b matches Block::Header(h) && header_block_of(content) == Some(h@),
            Err(e) => e is PbfParseError && header_block_of(content) is None,
        },
        BlockType::Primitive => match r {
            Ok(b) => b matches Block::Primitive(p) && primitive_block_of(content) == Some(p@),
            Err(e) => e is PbfParseError && primitive_block_of(content) is None,
        },
    }
}

/// Parser with an internal buffer for `RawBlock`s.
///
/// When multiple threads are used to speed up parsing, it's recommended to
/// use a single `BlockParser` per thread (e.g. by making it thread local),
/// so its internal buffer remains alive, avoiding repeated memory
/// allocations.
pub struct BlockParser<D: Decompressor = DefaultDecompressor> {
    block_buffer: Vec<u8>,
    decompressor: core::marker::PhantomData<D>,
}

impl Default for BlockParser<DefaultDecompressor> {
    /// Creates a `BlockParser` with the default decompressor.
    fn default() -> (r: Self)
        ensures
            r.buffer_view() == Seq::<u8>::empty(),
    {
        BlockParser::<DefaultDecompressor>::new()
    }
}

impl<D: Decompressor> BlockParser<D> {
    /// The bytes the reusable block buffer currently holds.
    pub closed spec fn buffer_view(self) -> Seq<u8> {
        self.block_buffer@
    }

    /// Creates a new `BlockParser`.
    pub fn new() -> (r: Self)
        ensures
            r.buffer_view() == Seq::<u8>::empty(),
    {
        BlockParser { block_buffer: Vec::new(), decompressor: core::marker::PhantomData }
    }

    /// Parses `raw_block` into a header, primitive or unknown block.
    ///
    /// The blob envelope is decoded first; a declared uncompressed size
    /// pre-sizes the reusable buffer, the payload variant then fully
    /// overwrites it — raw bytes are copied through, compressed bytes go
    /// through the decompressor — and the buffer is decoded per the raw
    /// block's type. A missing payload variant or the obsolete compression
    /// format is `InvalidBlobData`; the buffer never retains bytes of an
    /// earlier block beyond the length it was resized to.
    pub fn parse_block(&mut self, raw_block: RawBlock) -> (r: Result<Block, Error>)
        ensures
            ({
                let m = blob_of(raw_block.payload());
                let old_len = old(self).buffer_view().len() as int;
                &&& m is None ==> (r matches Err(e) && e is PbfParseError && *final(self)
                    == *old(self))
                &&& m matches Some(blob) ==> {
                    let target_len = prepared_len(blob, old_len);
                    let sized = resized(old(self).buffer_view(), target_len);
                    if target_len < 0 {
                        r == Err::<Block, Error>(Error::InvalidBlobData) && *final(self)
                            == *old(self)
                    } else {
                        match blob.data {
                            None => r == Err::<Block, Error>(Error::InvalidBlobData)
                                && final(self).buffer_view() == sized,
                            Some((num, payload)) => {
                                if num == 5 {
                                    r == Err::<Block, Error>(Error::InvalidBlobData)
                                        && final(self).buffer_view() == sized
                                } else if num == 1 {
                                    final(self).buffer_view() == payload && typed_outcome(
                                        raw_block.kind(),
                                        payload,
                                        r,
                                    )
                                } else {
                                    let stream = D::decompressed(method_of(num), payload);
                                    ||| (r matches Err(e) && e is DecompressionError
                                        && final(self).buffer_view().len() == sized.len())
                                    ||| (final(self).buffer_view() == stream.take(sized.len() as int)
                                        && sized.len() <= stream.len() && typed_outcome(
                                        raw_block.kind(),
                                        stream.take(sized.len() as int),
                                        r,
                                    ))
                                }
                            },
                        }
                    }
                }
            }),
    {
        proof {
            crate::framer::lemma_raw_block_views(raw_block);
        }
        let blob = match parse_blob(raw_block.data.as_slice()) {
            Ok(blob) => blob,
            Err(fault) => {
                return Err(Error::PbfParseError(fault));
            },
        };
        let ghost m: SpecBlob = blob_of(raw_block.payload()).unwrap();
        let ghost old_len: int = old(self).buffer_view().len() as int;

        if let Some(uncompressed_size) = blob.raw_size {
            if uncompressed_size < 0 {
                return Err(Error::InvalidBlobData);
            }
            self.block_buffer.resize(uncompressed_size as usize, 0u8);
            proof {
                assert(self.block_buffer@ =~= resized(
                    old(self).buffer_view(),
                    uncompressed_size as int,
                ));
            }
        }
        proof {
            assert(self.block_buffer@ =~= resized(
                old(self).buffer_view(),
                prepared_len(m, old_len),
            ));
        }

        let data = match blob.data {
            Some(data) => data,
            None => {
                return Err(Error::InvalidBlobData);
            },
        };

        match data {
            pbf::BlobData::Raw(raw_data) => {
                self.block_buffer = raw_data;
            },
            pbf::BlobData::ZlibData(zlib_data) => {
                if let Err(error) = D::decompress(
                    CompressionMethod::Zlib,
                    zlib_data.as_slice(),
                    &mut self.block_buffer,
                ) {
                    return Err(Error::DecompressionError(error));
                }
            },
            pbf::BlobData::Lz4Data(lz4_data) => {
                if let Err(error) = D::decompress(
                    CompressionMethod::Lz4,
                    lz4_data.as_slice(),
                    &mut self.block_buffer,
                ) {
                    return Err(Error::DecompressionError(error));
                }
            },
            pbf::BlobData::LzmaData(lzma_data) => {
                if let Err(error) = D::decompress(
                    CompressionMethod::Lzma,
                    lzma_data.as_slice(),
                    &mut self.block_buffer,
                ) {
                    return Err(Error::DecompressionError(error));
                }
            },
            pbf::BlobData::ZstdData(zstd_data) => {
                if let Err(error) = D::decompress(
                    CompressionMethod::Zstd,
                    zstd_data.as_slice(),
                    &mut self.block_buffer,
                ) {
                    return Err(Error::DecompressionError(error));
                }
            },
            pbf::BlobData::ObsoleteBzip2Data(_) => {
                return Err(Error::InvalidBlobData);
            },
        }

        match raw_block.block_type {
            BlockType::Header => match parse_header_block(self.block_buffer.as_slice()) {
                Ok(header_block) => Ok(Block::Header(header_block)),
                Err(fault) => Err(Error::PbfParseError(fault)),
            },
            BlockType::Primitive => match parse_primitive_block(self.block_buffer.as_slice()) {
                Ok(primitive_block) => Ok(Block::Primitive(primitive_block)),
                Err(fault) => Err(Error::PbfParseError(fault)),
            },
            BlockType::Unknown => Ok(
                Block::Unknown(vstd::slice::slice_to_vec(self.block_buffer.as_slice())),
            ),
        }
    }
}

} // verus!
