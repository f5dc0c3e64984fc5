use rosm_pbf_reader::DeltaValueReader;

#[test]
fn empty_input() {
    let mut reader = DeltaValueReader::new(&[] as &[i64]);
    assert_eq!(reader.next(), None);
}

#[test]
fn lib_valid_input() {
    let values = [10, -1, 4, -2];
    let mut reader = DeltaValueReader::new(&values);
    assert_eq!(reader.next(), Some(10));
    assert_eq!(reader.next(), Some(9));
    assert_eq!(reader.next(), Some(13));
    assert_eq!(reader.next(), Some(11));
    assert_eq!(reader.next(), None);
}

#[test]
fn round_trip_with_negatives_and_zero_runs() {
    let original: [i64; 8] = [5, 5, 5, -3, 0, 0, i64::MAX, i64::MIN];
    let mut deltas = Vec::new();
    let mut previous: i64 = 0;
    for value in original {
        deltas.push(value.wrapping_sub(previous));
        previous = value;
    }
    let mut reader = DeltaValueReader::new(&deltas);
    let mut decoded = Vec::new();
    while let Some(value) = reader.next() {
        decoded.push(value);
    }
    assert_eq!(decoded, original);
}
