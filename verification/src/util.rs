//! Various utilities, like timestamp and coordinate normalization.

use crate::pbf;
use vstd::prelude::*;

verus! {

/// Normalizes `lat` and `lon` to nanodegrees and returns them in a
/// `(latitude, longitude)` pair: each coordinate is scaled by the block
/// granularity and shifted by the block offset.
pub fn normalize_coord(lat: i64, lon: i64, block: &pbf::PrimitiveBlock) -> (r: (i64, i64))
    requires
        i64::MIN <= lat * block.spec_granularity() <= i64::MAX,
        i64::MIN <= lat * block.spec_granularity() + block.spec_lat_offset() <= i64::MAX,
        i64::MIN <= lon * block.spec_granularity() <= i64::MAX,
        i64::MIN <= lon * block.spec_granularity() + block.spec_lon_offset() <= i64::MAX,
    ensures
        r.0 == lat * block.spec_granularity() + block.spec_lat_offset(),
        r.1 == lon * block.spec_granularity() + block.spec_lon_offset(),
{
    let granularity = block.granularity() as i64;
    (lat * granularity + block.lat_offset(), lon * granularity + block.lon_offset())
}

/// Normalizes a timestamp coming from [`pbf::Info`] or [`pbf::DenseInfo`] to
/// milliseconds by scaling it with the block's date granularity.
pub fn normalize_timestamp(timestamp: i64, block: &pbf::PrimitiveBlock) -> (r: i64)
    requires
        i64::MIN <= timestamp * block.spec_date_granularity() <= i64::MAX,
    ensures
        r == timestamp * block.spec_date_granularity(),
{
    timestamp * (block.date_granularity() as i64)
}

} // verus!
