use rosm_pbf_reader::read_blob;
use rosm_pbf_reader::Error;
use rosm_pbf_reader::IoFault;

fn push_varint(mut v: u64, out: &mut Vec<u8>) {
    loop {
        let b = (v & 0x7f) as u8;
        v >>= 7;
        if v == 0 {
            out.push(b);
            return;
        }
        out.push(b | 0x80);
    }
}

fn push_len_field(field: u8, payload: &[u8], out: &mut Vec<u8>) {
    push_varint(((field as u64) << 3) | 2, out);
    push_varint(payload.len() as u64, out);
    out.extend_from_slice(payload);
}

fn push_varint_field(field: u8, value: u64, out: &mut Vec<u8>) {
    push_varint((field as u64) << 3, out);
    push_varint(value, out);
}

/// One framed record: the big-endian header length, a blob header carrying
/// the type tag and the body size, then the body bytes.
fn frame(type_tag: &str, body: &[u8]) -> Vec<u8> {
    let mut header = Vec::new();
    push_len_field(1, type_tag.as_bytes(), &mut header);
    push_varint_field(3, body.len() as u64, &mut header);
    let mut out = Vec::new();
    out.extend_from_slice(&(header.len() as i32).to_be_bytes());
    out.extend_from_slice(&header);
    out.extend_from_slice(body);
    out
}

#[test]
fn empty_input_yields_no_records() {
    let mut input: &[u8] = &[];
    assert!(read_blob(&mut input).is_none());
}

#[test]
fn truncation_mid_header_is_one_io_error_then_nothing() {
    let framed = frame("OSMData", b"payload");
    let mut input: &[u8] = &framed[..2];
    match read_blob(&mut input) {
        Some(Err(Error::IoError(IoFault::UnexpectedEof))) => {}
        _ => panic!("a truncated length prefix must be an I/O error"),
    }
    assert!(read_blob(&mut input).is_none());
}

#[test]
fn truncation_mid_body_is_one_io_error_then_nothing() {
    let framed = frame("OSMData", b"payload");
    let mut input: &[u8] = &framed[..framed.len() - 3];
    match read_blob(&mut input) {
        Some(Err(Error::IoError(IoFault::UnexpectedEof))) => {}
        _ => panic!("a truncated body must be an I/O error"),
    }
    assert!(read_blob(&mut input).is_none());
}

#[test]
fn oversized_length_prefix_is_invalid_blob_header() {
    // 65536 as a big-endian prefix, at the exclusive ceiling
    let mut input: &[u8] = &[0x00, 0x01, 0x00, 0x00, 0xff, 0xff];
    match read_blob(&mut input) {
        Some(Err(Error::InvalidBlobHeader)) => {}
        _ => panic!("a length prefix at the ceiling must be rejected"),
    }
}

#[test]
fn negative_length_prefix_is_invalid_blob_header() {
    let mut input: &[u8] = &[0xff, 0xff, 0xff, 0xfc];
    match read_blob(&mut input) {
        Some(Err(Error::InvalidBlobHeader)) => {}
        _ => panic!("a negative length prefix must be rejected"),
    }
}

#[test]
fn largest_accepted_length_prefix_reads_the_header() {
    // 65535 is still accepted as a header size; the stream then ends short.
    let mut input: &[u8] = &[0x00, 0x00, 0xff, 0xff];
    match read_blob(&mut input) {
        Some(Err(Error::IoError(IoFault::UnexpectedEof))) => {}
        _ => panic!("a prefix below the ceiling must proceed to the header read"),
    }
}

#[test]
fn oversized_datasize_is_invalid_blob_data() {
    let mut header = Vec::new();
    push_len_field(1, b"OSMData", &mut header);
    push_varint_field(3, 32 * 1024 * 1024, &mut header);
    let mut framed = Vec::new();
    framed.extend_from_slice(&(header.len() as i32).to_be_bytes());
    framed.extend_from_slice(&header);
    let mut input: &[u8] = &framed;
    match read_blob(&mut input) {
        Some(Err(Error::InvalidBlobData)) => {}
        _ => panic!("a declared body size at the ceiling must be rejected"),
    }
}

#[test]
fn negative_datasize_is_invalid_blob_data() {
    let mut header = Vec::new();
    push_len_field(1, b"OSMData", &mut header);
    // int32 value -1, sign-extended over ten varint bytes
    push_varint_field(3, u64::MAX, &mut header);
    let mut framed = Vec::new();
    framed.extend_from_slice(&(header.len() as i32).to_be_bytes());
    framed.extend_from_slice(&header);
    let mut input: &[u8] = &framed;
    match read_blob(&mut input) {
        Some(Err(Error::InvalidBlobData)) => {}
        _ => panic!("a negative declared body size must be rejected"),
    }
}

#[test]
fn malformed_blob_header_is_a_parse_error() {
    // header length 1, header byte 0x08 announces a varint that never follows
    let mut input: &[u8] = &[0x00, 0x00, 0x00, 0x01, 0x08];
    match read_blob(&mut input) {
        Some(Err(Error::PbfParseError(_))) => {}
        _ => panic!("a malformed blob header must be a parse error"),
    }
}

#[test]
fn two_records_in_sequence_then_clean_end() {
    let mut stream = frame("OSMData", b"first");
    stream.extend_from_slice(&frame("OSMHeader", b"second"));
    let mut input: &[u8] = &stream;
    assert!(matches!(read_blob(&mut input), Some(Ok(_))));
    assert!(matches!(read_blob(&mut input), Some(Ok(_))));
    assert!(read_blob(&mut input).is_none());
}

/// A stream that yields one byte at a time and reports one interruption
/// before each byte.
struct ChoppyReader {
    data: Vec<u8>,
    position: usize,
    interrupt_next: bool,
}

impl std::io::Read for ChoppyReader {
    fn read(&mut self, buf: &mut [u8]) -> std::io::Result<usize> {
        if self.interrupt_next {
            self.interrupt_next = false;
            return Err(std::io::Error::from(std::io::ErrorKind::Interrupted));
        }
        self.interrupt_next = true;
        if self.position >= self.data.len() || buf.is_empty() {
            return Ok(0);
        }
        buf[0] = self.data[self.position];
        self.position += 1;
        Ok(1)
    }
}

#[test]
fn interrupted_and_chunked_reads_still_frame() {
    let mut stream = ChoppyReader {
        data: frame("OSMData", b"body bytes"),
        position: 0,
        interrupt_next: true,
    };
    assert!(matches!(read_blob(&mut stream), Some(Ok(_))));
    assert!(read_blob(&mut stream).is_none());
}

#[test]
fn stream_fault_is_surfaced_with_its_message() {
    struct FailingReader;
    impl std::io::Read for FailingReader {
        fn read(&mut self, _buf: &mut [u8]) -> std::io::Result<usize> {
            Err(std::io::Error::new(std::io::ErrorKind::Other, "broken pipe?"))
        }
    }
    match read_blob(&mut FailingReader) {
        Some(Err(Error::IoError(IoFault::Stream(message)))) => {
            assert!(message.contains("broken pipe"));
        }
        _ => panic!("a stream fault must be surfaced as a stream error"),
    }
}
