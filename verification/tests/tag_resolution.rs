use rosm_pbf_reader::dense::new_dense_tag_reader;
use rosm_pbf_reader::new_tag_reader;
use rosm_pbf_reader::pbf;
use rosm_pbf_reader::Error;
use rosm_pbf_reader::LogicFault;

fn table_of(entries: &[&[u8]]) -> pbf::StringTable {
    pbf::StringTable {
        s: entries.iter().map(|e| e.to_vec()).collect(),
    }
}

#[test]
fn tag_reader_valid_input() {
    let key_vals = ["", "key1", "val1", "key2", "val2"];
    let string_table = pbf::StringTable {
        s: key_vals.iter().map(|s| s.as_bytes().to_vec()).collect(),
    };

    let key_indices = [1, 3];
    let value_indices = [2, 4];
    let mut reader = new_tag_reader(&string_table, &key_indices, &value_indices);

    matches!(reader.next(), Some((Ok("key1"), Ok("val1"))));
    matches!(reader.next(), Some((Ok("key2"), Ok("val2"))));

    assert!(reader.next().is_none());
}

#[test]
fn tag_resolution_example() {
    let string_table = table_of(&[b"", b"key1", b"val1", b"key2", b"val2"]);
    let mut reader = new_tag_reader(&string_table, &[1, 3], &[2, 4]);

    let (key, value) = reader.next().unwrap();
    assert_eq!(key.unwrap(), "key1");
    assert_eq!(value.unwrap(), "val1");

    let (key, value) = reader.next().unwrap();
    assert_eq!(key.unwrap(), "key2");
    assert_eq!(value.unwrap(), "val2");

    assert!(reader.next().is_none());
}

#[test]
fn out_of_bounds_key_keeps_valid_value() {
    let string_table = table_of(&[b"", b"name", b"fountain"]);
    let mut reader = new_tag_reader(&string_table, &[9], &[2]);

    let (key, value) = reader.next().unwrap();
    match key {
        Err(Error::LogicError(LogicFault::IndexOutOfBounds { index, table_len })) => {
            assert_eq!(index, 9);
            assert_eq!(table_len, 3);
        }
        _ => panic!("an out of bounds key index must fail only the key side"),
    }
    assert_eq!(value.unwrap(), "fountain");
    assert!(reader.next().is_none());
}

#[test]
fn invalid_utf8_entry_fails_its_side_only() {
    let string_table = table_of(&[b"", b"\xff\xfe", b"ok"]);
    let mut reader = new_tag_reader(&string_table, &[1], &[2]);

    let (key, value) = reader.next().unwrap();
    match key {
        Err(Error::LogicError(LogicFault::InvalidUtf8 { index })) => assert_eq!(index, 1),
        _ => panic!("invalid UTF-8 must fail the referencing side"),
    }
    assert_eq!(value.unwrap(), "ok");
}

#[test]
fn unequal_index_slices_stop_at_shorter() {
    let string_table = table_of(&[b"", b"a", b"b", b"c"]);
    let mut reader = new_tag_reader(&string_table, &[1, 2, 3], &[1]);
    assert!(reader.next().is_some());
    assert!(reader.next().is_none());
}

#[test]
fn dense_tag_reader_resolves_packed_pairs() {
    let string_table = table_of(&[b"", b"highway", b"primary"]);
    let mut reader = new_dense_tag_reader(&string_table, &[1, 2]);

    let (key, value) = reader.next().unwrap();
    assert_eq!(key.unwrap(), "highway");
    assert_eq!(value.unwrap(), "primary");
    assert!(reader.next().is_none());
}

#[test]
fn dense_tag_reader_rejects_negative_indices() {
    let string_table = table_of(&[b"", b"name", b"x"]);
    let mut reader = new_dense_tag_reader(&string_table, &[-3, 2]);

    let (key, value) = reader.next().unwrap();
    match key {
        Err(Error::LogicError(LogicFault::InvalidIndex { index })) => assert_eq!(index, -3),
        _ => panic!("a negative packed index must fail its side"),
    }
    assert_eq!(value.unwrap(), "x");
}

#[test]
fn dense_tag_reader_ignores_odd_trailing_index() {
    let string_table = table_of(&[b"", b"a", b"b"]);
    let mut reader = new_dense_tag_reader(&string_table, &[1, 2, 1]);
    assert!(reader.next().is_some());
    assert!(reader.next().is_none());
}
