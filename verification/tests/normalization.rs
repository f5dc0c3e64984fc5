use rosm_pbf_reader::pbf;
use rosm_pbf_reader::util::normalize_coord;
use rosm_pbf_reader::util::normalize_timestamp;

fn block(
    granularity: Option<i32>,
    lat_offset: Option<i64>,
    lon_offset: Option<i64>,
    date_granularity: Option<i32>,
) -> pbf::PrimitiveBlock {
    pbf::PrimitiveBlock {
        stringtable: pbf::StringTable { s: Vec::new() },
        primitivegroup: Vec::new(),
        granularity,
        lat_offset,
        lon_offset,
        date_granularity,
    }
}

#[test]
fn coords_scale_by_granularity_and_shift_by_offsets() {
    let block = block(Some(2), Some(10), Some(-10), None);
    assert_eq!(normalize_coord(5, 7, &block), (20, 4));
}

#[test]
fn coords_use_schema_defaults_when_fields_are_absent() {
    let block = block(None, None, None, None);
    assert_eq!(normalize_coord(3, -4, &block), (300, -400));
}

#[test]
fn timestamps_scale_by_date_granularity() {
    let with_field = block(None, None, None, Some(2000));
    assert_eq!(normalize_timestamp(3, &with_field), 6000);

    let with_default = block(None, None, None, None);
    assert_eq!(normalize_timestamp(3, &with_default), 3000);
}
