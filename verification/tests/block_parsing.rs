use std::io::Read;

use rosm_pbf_reader::dense::new_dense_tag_reader;
use rosm_pbf_reader::dense::DenseNodeReader;
use rosm_pbf_reader::read_blob;
use rosm_pbf_reader::Block;
use rosm_pbf_reader::BlockParser;
use rosm_pbf_reader::DefaultDecompressor;
use rosm_pbf_reader::Error;
use rosm_pbf_reader::RawBlock;

fn push_varint(mut v: u64, out: &mut Vec<u8>) {
    loop {
        let b = (v & 0x7f) as u8;
        v >>= 7;
        if v == 0 {
            out.push(b);
            return;
        }
        out.push(b | 0x80);
    }
}

fn push_len_field(field: u8, payload: &[u8], out: &mut Vec<u8>) {
    push_varint(((field as u64) << 3) | 2, out);
    push_varint(payload.len() as u64, out);
    out.extend_from_slice(payload);
}

fn push_varint_field(field: u8, value: u64, out: &mut Vec<u8>) {
    push_varint((field as u64) << 3, out);
    push_varint(value, out);
}

fn push_packed_sint64(field: u8, values: &[i64], out: &mut Vec<u8>) {
    let mut packed = Vec::new();
    for v in values {
        push_varint(((v << 1) ^ (v >> 63)) as u64, &mut packed);
    }
    push_len_field(field, &packed, out);
}

fn push_packed_int32(field: u8, values: &[i32], out: &mut Vec<u8>) {
    let mut packed = Vec::new();
    for v in values {
        push_varint(*v as i64 as u64, &mut packed);
    }
    push_len_field(field, &packed, out);
}

fn frame(type_tag: &str, body: &[u8]) -> Vec<u8> {
    let mut header = Vec::new();
    push_len_field(1, type_tag.as_bytes(), &mut header);
    push_varint_field(3, body.len() as u64, &mut header);
    let mut out = Vec::new();
    out.extend_from_slice(&(header.len() as i32).to_be_bytes());
    out.extend_from_slice(&header);
    out.extend_from_slice(body);
    out
}

fn framed_raw_block(type_tag: &str, blob_body: &[u8]) -> RawBlock {
    let framed = frame(type_tag, blob_body);
    let mut input: &[u8] = &framed;
    read_blob(&mut input)
        .expect("one record must be framed")
        .expect("the framed record must be readable")
}

/// A blob whose payload is carried raw.
fn raw_blob(payload: &[u8]) -> Vec<u8> {
    let mut blob = Vec::new();
    push_len_field(1, payload, &mut blob);
    blob
}

#[test]
fn missing_payload_variant_is_invalid_blob_data() {
    // only raw_size is present, no payload variant
    let mut blob = Vec::new();
    push_varint_field(2, 10, &mut blob);
    let raw_block = framed_raw_block("OSMData", &blob);
    let mut parser = BlockParser::<DefaultDecompressor>::new();
    match parser.parse_block(raw_block) {
        Err(Error::InvalidBlobData) => {}
        _ => panic!("a blob without a payload variant must be rejected"),
    }
}

#[test]
fn obsolete_compression_is_invalid_blob_data() {
    let mut blob = Vec::new();
    push_len_field(5, b"anything", &mut blob);
    let raw_block = framed_raw_block("OSMData", &blob);
    let mut parser = BlockParser::<DefaultDecompressor>::new();
    match parser.parse_block(raw_block) {
        Err(Error::InvalidBlobData) => {}
        _ => panic!("the obsolete compression format must be rejected"),
    }
}

#[test]
fn negative_raw_size_is_invalid_blob_data() {
    let mut blob = Vec::new();
    push_varint_field(2, u64::MAX, &mut blob);  // int32 value -1
    push_len_field(1, b"payload", &mut blob);
    let raw_block = framed_raw_block("OSMData", &blob);
    let mut parser = BlockParser::<DefaultDecompressor>::new();
    match parser.parse_block(raw_block) {
        Err(Error::InvalidBlobData) => {}
        _ => panic!("a negative declared uncompressed size must be rejected"),
    }
}

#[test]
fn malformed_blob_envelope_is_a_parse_error() {
    let raw_block = framed_raw_block("OSMData", &[0x0a]);  // chunk that never follows
    let mut parser = BlockParser::<DefaultDecompressor>::new();
    match parser.parse_block(raw_block) {
        Err(Error::PbfParseError(_)) => {}
        _ => panic!("a malformed envelope must be a parse error"),
    }
}

#[test]
fn unknown_block_passes_raw_payload_through() {
    let raw_block = framed_raw_block("SomeCustomTag", &raw_blob(b"opaque bytes"));
    let mut parser = BlockParser::<DefaultDecompressor>::new();
    match parser.parse_block(raw_block) {
        Ok(Block::Unknown(bytes)) => assert_eq!(bytes, b"opaque bytes"),
        _ => panic!("an unknown block must surface its bytes"),
    }
}

#[test]
fn second_parse_does_not_retain_first_blocks_bytes() {
    let mut parser = BlockParser::<DefaultDecompressor>::new();

    let first = framed_raw_block("SomeCustomTag", &raw_blob(b"abcdefgh"));
    match parser.parse_block(first) {
        Ok(Block::Unknown(bytes)) => assert_eq!(bytes, b"abcdefgh"),
        _ => panic!("the first block must pass through"),
    }

    let second = framed_raw_block("SomeCustomTag", &raw_blob(b"xy"));
    match parser.parse_block(second) {
        Ok(Block::Unknown(bytes)) => assert_eq!(bytes, b"xy"),
        _ => panic!("the second block must not retain earlier bytes"),
    }
}

#[test]
fn zlib_payload_is_decompressed_into_the_presized_buffer() {
    let payload = b"hello zlib world, hello zlib world";
    let mut encoder =
        flate2::read::ZlibEncoder::new(&payload[..], flate2::Compression::default());
    let mut compressed = Vec::new();
    encoder
        .read_to_end(&mut compressed)
        .expect("compressing in memory cannot fail");

    let mut blob = Vec::new();
    push_varint_field(2, payload.len() as u64, &mut blob);
    push_len_field(3, &compressed, &mut blob);

    let raw_block = framed_raw_block("SomeCustomTag", &blob);
    let mut parser = BlockParser::<DefaultDecompressor>::new();
    match parser.parse_block(raw_block) {
        Ok(Block::Unknown(bytes)) => assert_eq!(bytes, payload),
        _ => panic!("a zlib payload must decompress into the declared size"),
    }
}

#[test]
fn corrupt_zlib_payload_is_a_decompression_error() {
    let mut blob = Vec::new();
    push_varint_field(2, 8, &mut blob);
    push_len_field(3, b"not zlib", &mut blob);
    let raw_block = framed_raw_block("SomeCustomTag", &blob);
    let mut parser = BlockParser::<DefaultDecompressor>::new();
    match parser.parse_block(raw_block) {
        Err(Error::DecompressionError(_)) => {}
        _ => panic!("corrupt zlib data must be a decompression error"),
    }
}

#[test]
fn unsupported_compression_is_a_decompression_error() {
    let mut blob = Vec::new();
    push_varint_field(2, 4, &mut blob);
    push_len_field(6, b"lz4?", &mut blob);
    let raw_block = framed_raw_block("SomeCustomTag", &blob);
    let mut parser = BlockParser::<DefaultDecompressor>::new();
    match parser.parse_block(raw_block) {
        Err(Error::DecompressionError(_)) => {}
        _ => panic!("the default decompressor must refuse methods it does not support"),
    }
}

#[test]
fn header_block_decodes_its_features() {
    let mut header_block = Vec::new();
    push_len_field(4, b"OsmSchema-V0.6", &mut header_block);
    push_len_field(4, b"DenseNodes", &mut header_block);
    push_len_field(16, b"test-writer", &mut header_block);

    let raw_block = framed_raw_block("OSMHeader", &raw_blob(&header_block));
    let mut parser = BlockParser::<DefaultDecompressor>::new();
    match parser.parse_block(raw_block) {
        Ok(Block::Header(header)) => {
            assert_eq!(header.required_features, vec!["OsmSchema-V0.6", "DenseNodes"]);
            assert!(header.optional_features.is_empty());
            assert_eq!(header.writingprogram.as_deref(), Some("test-writer"));
        }
        _ => panic!("a header block must decode"),
    }
}

#[test]
fn truncated_block_message_is_a_parse_error() {
    // a primitive block whose message announces a chunk that never follows
    let raw_block = framed_raw_block("OSMData", &raw_blob(&[0x0a, 0x05]));
    let mut parser = BlockParser::<DefaultDecompressor>::new();
    match parser.parse_block(raw_block) {
        Err(Error::PbfParseError(_)) => {}
        _ => panic!("a truncated block message must be a parse error"),
    }
}

#[test]
fn primitive_block_pipeline_resolves_dense_tags() {
    let mut string_table = Vec::new();
    push_len_field(1, b"", &mut string_table);
    push_len_field(1, b"amenity", &mut string_table);
    push_len_field(1, b"fountain", &mut string_table);

    let mut dense = Vec::new();
    push_packed_sint64(1, &[2, -1], &mut dense);
    push_packed_sint64(8, &[-3, 1], &mut dense);
    push_packed_sint64(9, &[3, -1], &mut dense);
    push_packed_int32(10, &[1, 2, 0, 0], &mut dense);

    let mut group = Vec::new();
    push_len_field(2, &dense, &mut group);

    let mut block = Vec::new();
    push_len_field(1, &string_table, &mut block);
    push_len_field(2, &group, &mut block);
    push_varint_field(17, 100, &mut block);

    let raw_block = framed_raw_block("OSMData", &raw_blob(&block));
    let mut parser = BlockParser::<DefaultDecompressor>::new();
    let parsed = parser.parse_block(raw_block);
    let primitive = match &parsed {
        Ok(Block::Primitive(primitive)) => primitive,
        _ => panic!("a primitive block must decode"),
    };

    assert_eq!(primitive.granularity, Some(100));
    assert_eq!(primitive.primitivegroup.len(), 1);
    let dense = primitive.primitivegroup[0]
        .dense
        .as_ref()
        .expect("the group must hold its dense section");
    assert_eq!(dense.id, vec![2, -1]);
    assert_eq!(dense.lat, vec![-3, 1]);
    assert_eq!(dense.lon, vec![3, -1]);
    assert_eq!(dense.keys_vals, vec![1, 2, 0, 0]);

    let mut nodes = DenseNodeReader::new(dense).expect("the dense section must be readable");
    let node0 = nodes.next().unwrap().unwrap();
    assert_eq!(node0.id, 2);
    let mut tags = new_dense_tag_reader(&primitive.stringtable, node0.key_value_indices);
    let (key, value) = tags.next().unwrap();
    assert_eq!(key.unwrap(), "amenity");
    assert_eq!(value.unwrap(), "fountain");
    assert!(tags.next().is_none());

    let node1 = nodes.next().unwrap().unwrap();
    assert_eq!(node1.id, 1);
    assert_eq!(node1.key_value_indices, [] as [i32; 0]);
    assert!(nodes.next().is_none());
}
