//! The blob framer: reads one length-prefixed, possibly compressed block at
//! a time from a byte stream.

use crate::envelope::blob_header_of;
use crate::envelope::parse_blob_header;
use crate::error::Error;
use crate::error::IoFault;
use vstd::prelude::*;

verus! {

/// The classification of a blob's type tag: exact match on two known tags,
/// anything else is unknown.
#[derive(Clone, Copy, Debug, PartialEq, Eq, Structural)]
pub enum BlockType {
    Header,
    Primitive,
    Unknown,
}

/// The bytes of the type tag of a header block.
pub open spec fn header_tag() -> Seq<u8> {
    seq![79u8, 83u8, 77u8, 72u8, 101u8, 97u8, 100u8, 101u8, 114u8]
}

/// The bytes of the type tag of a primitive block.
pub open spec fn data_tag() -> Seq<u8> {
    seq![79u8, 83u8, 77u8, 68u8, 97u8, 116u8, 97u8]
}

/// The classification of a type tag.
pub open spec fn classified(type_bytes: Seq<u8>) -> BlockType {
    if type_bytes == header_tag() {
        BlockType::Header
    } else if type_bytes == data_tag() {
        BlockType::Primitive
    } else {
        BlockType::Unknown
    }
}

/// Classifies a type tag by exact match on the two known tags.
fn classify(type_bytes: &[u8]) -> (r: BlockType)
    ensures
        r == classified(type_bytes@),
{
    if type_bytes.len() == 9 {
        let is_header = type_bytes[0] == 79 && type_bytes[1] == 83 && type_bytes[2] == 77
            && type_bytes[3] == 72 && type_bytes[4] == 101 && type_bytes[5] == 97
            && type_bytes[6] == 100 && type_bytes[7] == 101 && type_bytes[8] == 114;
        proof {
            if is_header {
                assert(type_bytes@ =~= header_tag());
            }
            assert(type_bytes@.len() != data_tag().len());
        }
        if is_header {
            BlockType::Header
        } else {
            BlockType::Unknown
        }
    } else if type_bytes.len() == 7 {
        let is_data = type_bytes[0] == 79 && type_bytes[1] == 83 && type_bytes[2] == 77
            && type_bytes[3] == 68 && type_bytes[4] == 97 && type_bytes[5] == 116
            && type_bytes[6] == 97;
        proof {
            if is_data {
                assert(type_bytes@ =~= data_tag());
            }
            assert(type_bytes@.len() != header_tag().len());
        }
        if is_data {
            BlockType::Primitive
        } else {
            BlockType::Unknown
        }
    } else {
        proof {
            assert(type_bytes@.len() != header_tag().len());
            assert(type_bytes@.len() != data_tag().len());
        }
        BlockType::Unknown
    }
}

/// An unparsed, possibly compressed block.
pub struct RawBlock {
    pub(crate) block_type: BlockType,
    pub(crate) data: Vec<u8>,
}

impl RawBlock {
    /// The classification of the blob's type tag.
    pub closed spec fn kind(self) -> BlockType {
        self.block_type
    }

    /// The raw, possibly compressed body bytes of the blob.
    pub closed spec fn payload(self) -> Seq<u8> {
        self.data@
    }
}

/// The views of a raw block are its fields.
pub(crate) proof fn lemma_raw_block_views(raw_block: RawBlock)
    ensures
        raw_block.payload() == raw_block.data@,
        raw_block.kind() == raw_block.block_type,
{
}

/// The value of a big-endian 32-bit length prefix, two's complement.
pub open spec fn be_i32_of(s: Seq<u8>) -> int {
    let unsigned = (s[0] as int) * 0x100_0000 + (s[1] as int) * 0x1_0000 + (s[2] as int) * 0x100
        + (s[3] as int);
    if unsigned >= 0x8000_0000 {
        unsigned - 0x1_0000_0000
    } else {
        unsigned
    }
}

/// Validates a blob header length prefix: negative or >=64 KB is rejected.
fn blob_header_size(buffer: &[u8]) -> (r: Result<usize, Error>)
    requires
        buffer@.len() == 4,
    ensures
        match r {
            Ok(n) => 0 <= be_i32_of(buffer@) < 65536 && n as int == be_i32_of(buffer@),
            Err(e) => (be_i32_of(buffer@) < 0 || be_i32_of(buffer@) >= 65536) && e
                == Error::InvalidBlobHeader,
        },
{
    let unsigned: u32 = (buffer[0] as u32) * 0x100_0000 + (buffer[1] as u32) * 0x1_0000 + (
    buffer[2] as u32) * 0x100 + (buffer[3] as u32);
    if unsigned < 65536 {
        Ok(unsigned as usize)
    } else {
        Err(Error::InvalidBlobHeader)
    }
}

/// Validates a declared blob body size: negative or >=32 MB is rejected.
fn blob_data_size(datasize: i32) -> (r: Result<usize, Error>)
    ensures
        match r {
            Ok(n) => 0 <= datasize < 33554432 && n as int == datasize as int,
            Err(e) => (datasize < 0 || datasize >= 33554432) && e == Error::InvalidBlobData,
        },
{
    if 0 <= datasize && datasize < 32 * 1024 * 1024 {
        Ok(datasize as usize)
    } else {
        Err(Error::InvalidBlobData)
    }
}

/// One read step of the underlying stream.
enum ReadStep {
    /// The stream wrote this many bytes into the suffix.
    Data(usize),
    /// The read was interrupted and should be retried.
    Interrupted,
    /// The stream failed, with its error rendered as text.
    Failed(String),
}

/// Relies on std::io::Read::read: it writes only into the given suffix and
/// returns how many bytes it wrote, at most the suffix length. Which bytes
/// arrive depends on the stream, so nothing is assumed about them.
#[verifier::external_body]
fn read_into<Input: std::io::Read>(source: &mut Input, buffer: &mut Vec<u8>, start: usize) -> (r:
    ReadStep)
    requires
        start <= old(buffer).len(),
    ensures
        final(buffer)@.len() == old(buffer)@.len(),
        final(buffer)@.subrange(0, start as int) == old(buffer)@.subrange(0, start as int),
        r matches ReadStep::Data(n) ==> start + n <= final(buffer)@.len(),
{
    match source.read(&mut buffer[start..]) {
        Ok(n) => ReadStep::Data(n),
        Err(e) if e.kind() == std::io::ErrorKind::Interrupted => ReadStep::Interrupted,
        Err(e) => ReadStep::Failed(format!("{e}")),
    }
}

/// Why a read of an exact number of bytes fell short.
enum ReadShortfall {
    /// The stream ended before the first requested byte.
    EndOfStream,
    /// The stream ended after some requested bytes but before the last.
    Truncated,
    /// The stream failed, with its error rendered as text.
    Failed(String),
}

/// The classification of a read that hit the end of the stream: before the
/// first requested byte arrived it is the clean end of the stream, after
/// some bytes it is a truncation.
fn shortfall_at(filled: usize) -> (r: ReadShortfall)
    ensures
        filled == 0 ==> r == ReadShortfall::EndOfStream,
        filled != 0 ==> r == ReadShortfall::Truncated,
{
    if filled == 0 {
        ReadShortfall::EndOfStream
    } else {
        ReadShortfall::Truncated
    }
}

/// Reads exactly `count` bytes, classifying any shortfall. Reading zero
/// bytes asks nothing of the stream and always succeeds.
fn fill_exact<Input: std::io::Read>(source: &mut Input, count: usize) -> (r: Result<
    Vec<u8>,
    ReadShortfall,
>)
    ensures
        r matches Ok(bytes) ==> bytes@.len() == count,
        count == 0 ==> r is Ok,
{
    let mut buffer: Vec<u8> = vec![0u8; count];
    let mut filled: usize = 0;
    let mut retries_left: usize = usize::MAX;
    loop
        invariant
            filled <= count,
            buffer@.len() == count,
        decreases count - filled, retries_left,
    {
        if filled == count {
            return Ok(buffer);
        }
        match read_into(source, &mut buffer, filled) {
            ReadStep::Data(n) => {
                if n == 0 {
                    return Err(shortfall_at(filled));
                }
                filled = filled + n;
                retries_left = usize::MAX;
            },
            ReadStep::Interrupted => {
                if retries_left == 0 {
                    return Err(ReadShortfall::Failed("read interrupted too many times".to_string()));
                }
                retries_left = retries_left - 1;
            },
            ReadStep::Failed(message) => {
                return Err(ReadShortfall::Failed(message));
            },
        }
    }
}

/// The framer's verdict on a length-prefix read that fell short: a clean
/// end of the stream before the first prefix byte cleanly ends the sequence
/// of records; a truncation inside the prefix and a stream fault are I/O
/// errors.
fn prefix_shortfall_verdict(shortfall: ReadShortfall) -> (r: Option<Result<RawBlock, Error>>)
    ensures
        r is None <==> shortfall == ReadShortfall::EndOfStream,
        shortfall == ReadShortfall::Truncated ==> r == Some(
            Err::<RawBlock, Error>(Error::IoError(IoFault::UnexpectedEof)),
        ),
        shortfall matches ReadShortfall::Failed(message) ==> r == Some(
            Err::<RawBlock, Error>(Error::IoError(IoFault::Stream(message))),
        ),
{
    match shortfall {
        ReadShortfall::EndOfStream => None,
        ReadShortfall::Truncated => Some(Err(Error::IoError(IoFault::UnexpectedEof))),
        ReadShortfall::Failed(message) => Some(Err(Error::IoError(IoFault::Stream(message)))),
    }
}

/// The framer's verdict on a shortfall inside a frame, where the length
/// prefix has promised more bytes: every end of the stream is unexpected,
/// and a stream fault carries its message.
fn frame_shortfall_error(shortfall: ReadShortfall) -> (r: Error)
    ensures
        shortfall == ReadShortfall::EndOfStream || shortfall == ReadShortfall::Truncated ==> r
            == Error::IoError(IoFault::UnexpectedEof),
        shortfall matches ReadShortfall::Failed(message) ==> r == Error::IoError(
            IoFault::Stream(message),
        ),
{
    match shortfall {
        ReadShortfall::EndOfStream => Error::IoError(IoFault::UnexpectedEof),
        ReadShortfall::Truncated => Error::IoError(IoFault::UnexpectedEof),
        ReadShortfall::Failed(message) => Error::IoError(IoFault::Stream(message)),
    }
}

/// Reads the next blob from `pbf`.
///
/// `None` is returned only when the stream cleanly ends before the first
/// byte of the four-byte length prefix; any other shortfall is an
/// [`Error::IoError`]. After a hard error the caller must stop draining the
/// stream: resynchronization after a corrupt length prefix or truncated body
/// is not attempted.
pub fn read_blob<Input: std::io::Read>(pbf: &mut Input) -> (r: Option<Result<RawBlock, Error>>)
    ensures
        match r {
            Some(Ok(raw_block)) => raw_block.payload().len() < 33554432,
            Some(Err(e)) => !(e is LogicError) && !(e is DecompressionError),
            None => true,
        },
{
    match fill_exact(pbf, 4) {
        Ok(header_size_buffer) => Some(read_blob_inner(pbf, header_size_buffer)),
        Err(shortfall) => prefix_shortfall_verdict(shortfall),
    }
}

/// Frames one blob after its length prefix has arrived: validates the header
/// size, decodes the header message, validates the declared body size, and
/// reads the body.
fn read_blob_inner<Input: std::io::Read>(pbf: &mut Input, header_size_buffer: Vec<u8>) -> (r:
    Result<RawBlock, Error>)
    requires
        header_size_buffer@.len() == 4,
    ensures
        match r {
            Ok(raw_block) => {
                &&& 0 <= be_i32_of(header_size_buffer@) < 65536
                &&& raw_block.payload().len() < 33554432
            },
            Err(e) => {
                &&& !(e is LogicError) && !(e is DecompressionError)
                &&& e == Error::InvalidBlobHeader <==> (be_i32_of(header_size_buffer@) < 0
                    || be_i32_of(header_size_buffer@) >= 65536)
                &&& e is PbfParseError ==> exists|header_bytes: Seq<u8>|
                    #[trigger] blob_header_of(header_bytes) is None && header_bytes.len()
                        == be_i32_of(header_size_buffer@)
                &&& e == Error::InvalidBlobData ==> exists|header_bytes: Seq<u8>|
                    #[trigger] blob_header_of(header_bytes) matches Some(m) && (m.datasize < 0
                        || m.datasize >= 33554432) && header_bytes.len() == be_i32_of(
                        header_size_buffer@,
                    )
            },
        },
{
    let blob_header_size = blob_header_size(header_size_buffer.as_slice())?;

    let blob = match fill_exact(pbf, blob_header_size) {
        Ok(bytes) => bytes,
        Err(shortfall) => {
            return Err(frame_shortfall_error(shortfall));
        },
    };

    let blob_header = match parse_blob_header(blob.as_slice()) {
        Ok(blob_header) => blob_header,
        Err(fault) => {
            proof {
                assert(blob_header_of(blob@) is None && blob@.len() == be_i32_of(
                    header_size_buffer@,
                ));
            }
            return Err(Error::PbfParseError(fault));
        },
    };

    let block_type = classify(blob_header.type_bytes.as_slice());
    let blob_size = match blob_data_size(blob_header.datasize) {
        Ok(blob_size) => blob_size,
        Err(error) => {
            proof {
                assert(blob_header_of(blob@) matches Some(m) && (m.datasize < 0 || m.datasize
                    >= 33554432) && blob@.len() == be_i32_of(header_size_buffer@));
            }
            return Err(error);
        },
    };

    let data = match fill_exact(pbf, blob_size) {
        Ok(bytes) => bytes,
        Err(shortfall) => {
            return Err(frame_shortfall_error(shortfall));
        },
    };

    let raw_block = RawBlock { block_type, data };
    proof {
        lemma_raw_block_views(raw_block);
    }
    Ok(raw_block)
}

} // verus!
