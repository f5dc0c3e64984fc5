//! A low-level library for reading OSM data in the PBF format.
//!
//! An OSM PBF file is a sequence of blobs. These blobs can be read with [`read_blob`]. The
//! [`RawBlock`]s returned by `read_blob` can then be decompressed and parsed by
//! [`BlockParser::parse_block`], which returns a [`Block`], containing either a parsed
//! header/primitive block or an unknown block's binary data.
//!
//! The library also provides utilities for reading densely or delta encoded data in these
//! blocks: [`dense::DenseNodeReader`], [`TagReader`] and [`DeltaValueReader`].
//!
//! Typed header and primitive block shapes are exported through the [`pbf`] module.

pub mod dense;
pub mod pbf;
pub mod util;

mod block;
mod decode;
mod delta;
mod envelope;
mod error;
mod framer;
mod tags;
mod wire;

pub use crate::block::Block;
pub use crate::block::BlockParser;
pub use crate::block::CompressionMethod;
pub use crate::block::Decompressor;
pub use crate::block::DefaultDecompressor;
pub use crate::block::method_of;
pub use crate::block::prepared_len;
pub use crate::block::resized;
pub use crate::block::typed_outcome;
pub use crate::block::zlib_inflate;
pub use crate::delta::DeltaValueReader;
pub use crate::decode::changeset_of;
pub use crate::decode::dense_info_of;
pub use crate::decode::dense_nodes_of;
pub use crate::decode::header_bbox_of;
pub use crate::decode::header_block_of;
pub use crate::decode::info_of;
pub use crate::decode::node_of;
pub use crate::decode::primitive_block_of;
pub use crate::decode::primitive_group_of;
pub use crate::decode::relation_of;
pub use crate::decode::string_table_of;
pub use crate::decode::way_of;
pub use crate::delta::delta_decoded;
pub use crate::delta::delta_encoded;
pub use crate::delta::lemma_delta_round_trip;
pub use crate::delta::running_sum;
pub use crate::envelope::SpecBlob;
pub use crate::envelope::SpecBlobHeader;
pub use crate::envelope::blob_header_of;
pub use crate::envelope::blob_of;
pub use crate::error::DecompressionError;
pub use crate::error::Error;
pub use crate::error::IoFault;
pub use crate::error::LogicFault;
pub use crate::error::WireFault;
pub use crate::framer::BlockType;
pub use crate::framer::RawBlock;
pub use crate::framer::be_i32_of;
pub use crate::framer::classified;
pub use crate::framer::data_tag;
pub use crate::framer::header_tag;
pub use crate::framer::read_blob;
pub use crate::tags::TagReader;
pub use crate::tags::new_tag_reader;
pub use crate::tags::packed_entry;
pub use crate::tags::resolved_entry;
pub use crate::tags::side_matches;
pub use crate::tags::table_view;
