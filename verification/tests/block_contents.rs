use rosm_pbf_reader::new_tag_reader;
use rosm_pbf_reader::read_blob;
use rosm_pbf_reader::Block;
use rosm_pbf_reader::BlockParser;
use rosm_pbf_reader::DefaultDecompressor;
use rosm_pbf_reader::DeltaValueReader;
use rosm_pbf_reader::Error;
use rosm_pbf_reader::RawBlock;

fn push_varint(mut v: u64, out: &mut Vec<u8>) {
    loop {
        let b = (v & 0x7f) as u8;
        v >>= 7;
        if v == 0 {
            out.push(b);
            return;
        }
        out.push(b | 0x80);
    }
}

fn push_len_field(field: u8, payload: &[u8], out: &mut Vec<u8>) {
    push_varint(((field as u64) << 3) | 2, out);
    push_varint(payload.len() as u64, out);
    out.extend_from_slice(payload);
}

fn push_varint_field(field: u8, value: u64, out: &mut Vec<u8>) {
    push_varint((field as u64) << 3, out);
    push_varint(value, out);
}

fn zigzag(v: i64) -> u64 {
    ((v << 1) ^ (v >> 63)) as u64
}

fn push_packed_sint64(field: u8, values: &[i64], out: &mut Vec<u8>) {
    let mut packed = Vec::new();
    for v in values {
        push_varint(zigzag(*v), &mut packed);
    }
    push_len_field(field, &packed, out);
}

fn push_packed_uint32(field: u8, values: &[u32], out: &mut Vec<u8>) {
    let mut packed = Vec::new();
    for v in values {
        push_varint(*v as u64, &mut packed);
    }
    push_len_field(field, &packed, out);
}

fn frame(type_tag: &str, body: &[u8]) -> Vec<u8> {
    let mut header = Vec::new();
    push_len_field(1, type_tag.as_bytes(), &mut header);
    push_varint_field(3, body.len() as u64, &mut header);
    let mut out = Vec::new();
    out.extend_from_slice(&(header.len() as i32).to_be_bytes());
    out.extend_from_slice(&header);
    out.extend_from_slice(body);
    out
}

fn framed_raw_block(type_tag: &str, blob_body: &[u8]) -> RawBlock {
    let framed = frame(type_tag, blob_body);
    let mut input: &[u8] = &framed;
    read_blob(&mut input)
        .expect("one record must be framed")
        .expect("the framed record must be readable")
}

fn raw_blob(payload: &[u8]) -> Vec<u8> {
    let mut blob = Vec::new();
    push_len_field(1, payload, &mut blob);
    blob
}

fn parse_primitive(block_bytes: &[u8]) -> rosm_pbf_reader::pbf::PrimitiveBlock {
    let raw_block = framed_raw_block("OSMData", &raw_blob(block_bytes));
    let mut parser = BlockParser::<DefaultDecompressor>::new();
    match parser.parse_block(raw_block) {
        Ok(Block::Primitive(primitive)) => primitive,
        _ => panic!("the primitive block must decode"),
    }
}

#[test]
fn way_refs_are_delta_decoded_and_tags_resolve() {
    let mut string_table = Vec::new();
    push_len_field(1, b"", &mut string_table);
    push_len_field(1, b"highway", &mut string_table);
    push_len_field(1, b"residential", &mut string_table);

    let mut way = Vec::new();
    push_varint_field(1, 42, &mut way);  // int64 id
    push_packed_uint32(2, &[1], &mut way);
    push_packed_uint32(3, &[2], &mut way);
    push_packed_sint64(8, &[100, -3, 1], &mut way);

    let mut group = Vec::new();
    push_len_field(3, &way, &mut group);

    let mut block = Vec::new();
    push_len_field(1, &string_table, &mut block);
    push_len_field(2, &group, &mut block);

    let primitive = parse_primitive(&block);
    let way = &primitive.primitivegroup[0].ways[0];
    assert_eq!(way.id, 42);
    assert_eq!(way.refs, vec![100, -3, 1]);

    let mut refs = DeltaValueReader::new(&way.refs);
    assert_eq!(refs.next(), Some(100));
    assert_eq!(refs.next(), Some(97));
    assert_eq!(refs.next(), Some(98));
    assert_eq!(refs.next(), None);

    let mut tags = new_tag_reader(&primitive.stringtable, &way.keys, &way.vals);
    let (key, value) = tags.next().unwrap();
    assert_eq!(key.unwrap(), "highway");
    assert_eq!(value.unwrap(), "residential");
    assert!(tags.next().is_none());
}

#[test]
fn relation_members_decode() {
    let mut relation = Vec::new();
    push_varint_field(1, 7, &mut relation);
    push_packed_uint32(2, &[0], &mut relation);
    push_packed_uint32(3, &[0], &mut relation);
    push_len_field(8, &[2], &mut relation);  // roles_sid, packed int32 [2]
    push_packed_sint64(9, &[10, 5], &mut relation);  // memids
    push_len_field(10, &[0, 1], &mut relation);  // member types

    let mut group = Vec::new();
    push_len_field(4, &relation, &mut group);

    let mut block = Vec::new();
    push_len_field(2, &group, &mut block);

    let primitive = parse_primitive(&block);
    let relation = &primitive.primitivegroup[0].relations[0];
    assert_eq!(relation.id, 7);
    assert_eq!(relation.roles_sid, vec![2]);
    assert_eq!(relation.memids, vec![10, 5]);
    assert_eq!(relation.types, vec![0, 1]);

    let mut memids = DeltaValueReader::new(&relation.memids);
    assert_eq!(memids.next(), Some(10));
    assert_eq!(memids.next(), Some(15));
    assert_eq!(memids.next(), None);
}

#[test]
fn plain_node_with_metadata_decodes() {
    let mut info = Vec::new();
    push_varint_field(1, 3, &mut info);  // version
    push_varint_field(2, 1000, &mut info);  // timestamp
    push_varint_field(6, 1, &mut info);  // visible

    let mut node = Vec::new();
    push_varint(1 << 3, &mut node);
    push_varint(zigzag(-12), &mut node);  // sint64 id
    push_len_field(4, &info, &mut node);
    push_varint(8 << 3, &mut node);
    push_varint(zigzag(55), &mut node);  // sint64 lat
    push_varint(9 << 3, &mut node);
    push_varint(zigzag(-66), &mut node);  // sint64 lon

    let mut group = Vec::new();
    push_len_field(1, &node, &mut group);

    let mut block = Vec::new();
    push_len_field(2, &group, &mut block);

    let primitive = parse_primitive(&block);
    let node = &primitive.primitivegroup[0].nodes[0];
    assert_eq!(node.id, -12);
    assert_eq!(node.lat, 55);
    assert_eq!(node.lon, -66);
    let info = node.info.as_ref().unwrap();
    assert_eq!(info.version, Some(3));
    assert_eq!(info.timestamp, Some(1000));
    assert_eq!(info.visible, Some(true));
    assert_eq!(info.uid, None);
}

#[test]
fn unpacked_repeated_scalars_are_accepted() {
    // the dense id column written as three unpacked varint fields
    let mut dense = Vec::new();
    push_varint(1 << 3, &mut dense);
    push_varint(zigzag(4), &mut dense);
    push_varint(1 << 3, &mut dense);
    push_varint(zigzag(-1), &mut dense);
    push_packed_sint64(8, &[0, 0], &mut dense);
    push_packed_sint64(9, &[0, 0], &mut dense);

    let mut group = Vec::new();
    push_len_field(2, &dense, &mut group);

    let mut block = Vec::new();
    push_len_field(2, &group, &mut block);

    let primitive = parse_primitive(&block);
    let dense = primitive.primitivegroup[0].dense.as_ref().unwrap();
    assert_eq!(dense.id, vec![4, -1]);
}

#[test]
fn unknown_fields_are_skipped() {
    let mut block = Vec::new();
    push_varint_field(99, 123456, &mut block);  // unknown varint field
    push_len_field(77, b"future data", &mut block);  // unknown chunk field
    push_varint_field(17, 50, &mut block);  // granularity

    let primitive = parse_primitive(&block);
    assert_eq!(primitive.granularity, Some(50));
}

#[test]
fn header_bbox_and_replication_fields_decode() {
    let mut bbox = Vec::new();
    push_varint(1 << 3, &mut bbox);
    push_varint(zigzag(-180_000_000_000), &mut bbox);
    push_varint(2 << 3, &mut bbox);
    push_varint(zigzag(180_000_000_000), &mut bbox);
    push_varint(3 << 3, &mut bbox);
    push_varint(zigzag(90_000_000_000), &mut bbox);
    push_varint(4 << 3, &mut bbox);
    push_varint(zigzag(-90_000_000_000), &mut bbox);

    let mut header = Vec::new();
    push_len_field(1, &bbox, &mut header);
    push_varint_field(32, 1700000000, &mut header);
    push_varint_field(33, 4321, &mut header);

    let raw_block = framed_raw_block("OSMHeader", &raw_blob(&header));
    let mut parser = BlockParser::<DefaultDecompressor>::new();
    match parser.parse_block(raw_block) {
        Ok(Block::Header(header)) => {
            let bbox = header.bbox.as_ref().unwrap();
            assert_eq!(bbox.left, -180_000_000_000);
            assert_eq!(bbox.right, 180_000_000_000);
            assert_eq!(bbox.top, 90_000_000_000);
            assert_eq!(bbox.bottom, -90_000_000_000);
            assert_eq!(header.osmosis_replication_timestamp, Some(1700000000));
            assert_eq!(header.osmosis_replication_sequence_number, Some(4321));
        }
        _ => panic!("the header block must decode"),
    }
}

#[test]
fn invalid_utf8_in_header_string_is_a_parse_error() {
    let mut header = Vec::new();
    push_len_field(16, b"\xff\xfe", &mut header);

    let raw_block = framed_raw_block("OSMHeader", &raw_blob(&header));
    let mut parser = BlockParser::<DefaultDecompressor>::new();
    match parser.parse_block(raw_block) {
        Err(Error::PbfParseError(_)) => {}
        _ => panic!("a header string that is not UTF-8 must be a parse error"),
    }
}

#[test]
fn varint_past_ten_bytes_is_a_parse_error() {
    // an eleventh continuation byte in the declared-size varint
    let mut blob = Vec::new();
    blob.push(2 << 3);
    blob.extend_from_slice(&[0x80; 10]);
    blob.push(0x01);

    let raw_block = framed_raw_block("SomeCustomTag", &blob);
    let mut parser = BlockParser::<DefaultDecompressor>::new();
    match parser.parse_block(raw_block) {
        Err(Error::PbfParseError(_)) => {}
        _ => panic!("an overlong varint must be a parse error"),
    }
}

#[test]
fn varint_past_64_bits_is_a_parse_error() {
    // ten bytes whose top group pushes the value to 2^64
    let mut blob = Vec::new();
    blob.push(2 << 3);
    blob.extend_from_slice(&[0x80; 9]);
    blob.push(0x02);

    let raw_block = framed_raw_block("SomeCustomTag", &blob);
    let mut parser = BlockParser::<DefaultDecompressor>::new();
    match parser.parse_block(raw_block) {
        Err(Error::PbfParseError(_)) => {}
        _ => panic!("a varint past 64 bits must be a parse error"),
    }
}

#[test]
fn zigzag_extremes_round_trip_through_dense_ids() {
    let mut dense = Vec::new();
    push_packed_sint64(1, &[i64::MAX, i64::MIN], &mut dense);
    push_packed_sint64(8, &[0, 0], &mut dense);
    push_packed_sint64(9, &[0, 0], &mut dense);

    let mut group = Vec::new();
    push_len_field(2, &dense, &mut group);

    let mut block = Vec::new();
    push_len_field(2, &group, &mut block);

    let primitive = parse_primitive(&block);
    let dense = primitive.primitivegroup[0].dense.as_ref().unwrap();
    assert_eq!(dense.id, vec![i64::MAX, i64::MIN]);
}

#[test]
fn empty_raw_payload_is_an_empty_unknown_block() {
    let raw_block = framed_raw_block("SomeCustomTag", &raw_blob(b""));
    let mut parser = BlockParser::<DefaultDecompressor>::new();
    match parser.parse_block(raw_block) {
        Ok(Block::Unknown(bytes)) => assert!(bytes.is_empty()),
        _ => panic!("an empty raw payload must pass through"),
    }
}

#[test]
fn known_field_with_wrong_wire_type_is_a_parse_error() {
    // granularity is a varint field; carrying it as a chunk must fail
    let mut block = Vec::new();
    push_len_field(17, b"bad", &mut block);

    let raw_block = framed_raw_block("OSMData", &raw_blob(&block));
    let mut parser = BlockParser::<DefaultDecompressor>::new();
    match parser.parse_block(raw_block) {
        Err(Error::PbfParseError(_)) => {}
        _ => panic!("a known field of the wrong wire type must fail the message"),
    }
}
