//! Helpers for reading dense nodes.

use crate::delta::delta_decoded;
use crate::delta::running_sum;
use crate::error::Error;
use crate::error::LogicFault;
use crate::pbf;

pub use crate::tags::new_dense_tag_reader;
use vstd::prelude::*;
use vstd::wrapping::i32_specs;
use vstd::wrapping::i64_specs;

verus! {

/// An unpacked dense node, returned when iterating on [`DenseNodeReader`].
pub struct DenseNode<'a> {
    pub id: i64,
    /// Latitude of the node in an encoded format. Use
    /// [`util::normalize_coord`](crate::util::normalize_coord) to convert it
    /// to nanodegrees.
    pub lat: i64,
    /// Longitude of the node in an encoded format. Use
    /// [`util::normalize_coord`](crate::util::normalize_coord) to convert it
    /// to nanodegrees.
    pub lon: i64,
    /// Optional metadata.
    pub info: Option<pbf::Info>,
    /// Key/value index slice of [`pbf::DenseNodes::keys_vals`]. Indices point
    /// into a [`pbf::StringTable`]. Use
    /// [`new_dense_tag_reader`](crate::dense::new_dense_tag_reader) to read
    /// these key/value pairs conveniently.
    pub key_value_indices: &'a [i32],
}

/// Snapshot of the delta-coding accumulators of a [`DenseNodeReader`], one
/// per delta-coded column.
pub struct DeltaCodedValues {
    pub id: i64,
    pub lat: i64,
    pub lon: i64,
    pub timestamp: i64,
    pub changeset: i64,
    pub uid: i32,
    pub user_sid: u32,
}

/// Whether adding `delta` to the `user_sid` accumulator stays inside the
/// range of an unsigned 32-bit table index.
pub open spec fn user_sid_in_range(current: u32, delta: i32) -> bool {
    0 <= current + delta <= u32::MAX
}

/// The end of the node's run inside `keys_vals` when scanning from `start`:
/// the first position an even number of steps from `start` holding the 0
/// sentinel, or the end of `keys_vals` when no sentinel remains.
pub open spec fn run_end(keys_vals: Seq<i32>, start: int) -> int
    decreases keys_vals.len() - start + 2,
{
    if !(0 <= start < keys_vals.len()) {
        keys_vals.len() as int
    } else if keys_vals[start] == 0i32 {
        start
    } else {
        run_end(keys_vals, start + 2)
    }
}

/// The metadata record of the node at column index `i`, decoded against the
/// accumulator snapshot `accs`: the version and visibility are copied
/// verbatim, the remaining columns are delta-decoded, and each column is
/// independently optional.
pub open spec fn decoded_info(src: pbf::DenseNodes, i: int, accs: DeltaCodedValues) -> Option<
    pbf::Info,
> {
    match src.denseinfo {
        Some(di) => Some(
            pbf::Info {
                version: if i < di.version@.len() {
                    Some(di.version@[i])
                } else {
                    None
                },
                timestamp: if i < di.timestamp@.len() {
                    Some(i64_specs::wrapping_add(accs.timestamp, di.timestamp@[i]))
                } else {
                    None
                },
                changeset: if i < di.changeset@.len() {
                    Some(i64_specs::wrapping_add(accs.changeset, di.changeset@[i]))
                } else {
                    None
                },
                uid: if i < di.uid@.len() {
                    Some(i32_specs::wrapping_add(accs.uid, di.uid@[i]))
                } else {
                    None
                },
                user_sid: if i < di.user_sid@.len() {
                    Some((accs.user_sid + di.user_sid@[i]) as u32)
                } else {
                    None
                },
                visible: if i < di.visible@.len() {
                    Some(di.visible@[i])
                } else {
                    None
                },
            },
        ),
        None => None,
    }
}

/// Whether decoding the node at column index `i` fails because its `user_sid`
/// delta would leave the unsigned accumulator range.
pub open spec fn node_sid_fails(src: pbf::DenseNodes, i: int, accs: DeltaCodedValues) -> bool {
    match src.denseinfo {
        Some(di) => i < di.user_sid@.len() && !user_sid_in_range(accs.user_sid, di.user_sid@[i]),
        None => false,
    }
}

/// The `user_sid` delta of the node at column index `i`, when one is present.
pub open spec fn node_sid_delta(src: pbf::DenseNodes, i: int) -> i32 {
    match src.denseinfo {
        Some(di) => di.user_sid@[i],
        None => 0i32,
    }
}

/// The accumulator snapshot after decoding the node at column index `i`
/// without a `user_sid` failure: every column with a delta at `i` advances,
/// the rest stay.
pub open spec fn stepped_accumulators(
    src: pbf::DenseNodes,
    i: int,
    accs: DeltaCodedValues,
) -> DeltaCodedValues {
    DeltaCodedValues {
        id: i64_specs::wrapping_add(accs.id, src.id@[i]),
        lat: i64_specs::wrapping_add(accs.lat, src.lat@[i]),
        lon: i64_specs::wrapping_add(accs.lon, src.lon@[i]),
        timestamp: match src.denseinfo {
            Some(di) => if i < di.timestamp@.len() {
                i64_specs::wrapping_add(accs.timestamp, di.timestamp@[i])
            } else {
                accs.timestamp
            },
            None => accs.timestamp,
        },
        changeset: match src.denseinfo {
            Some(di) => if i < di.changeset@.len() {
                i64_specs::wrapping_add(accs.changeset, di.changeset@[i])
            } else {
                accs.changeset
            },
            None => accs.changeset,
        },
        uid: match src.denseinfo {
            Some(di) => if i < di.uid@.len() {
                i32_specs::wrapping_add(accs.uid, di.uid@[i])
            } else {
                accs.uid
            },
            None => accs.uid,
        },
        user_sid: match src.denseinfo {
            Some(di) => if i < di.user_sid@.len() {
                (accs.user_sid + di.user_sid@[i]) as u32
            } else {
                accs.user_sid
            },
            None => accs.user_sid,
        },
    }
}

/// Column decode law: when the accumulators hold the wrapping running sums
/// of the first `i` deltas of the three required columns, the node decoded
/// at `i` carries exactly the delta-decoded absolute values of those
/// columns — each column decodes as the previous value plus its delta,
/// starting from zero, independently per column.
pub proof fn lemma_node_values_follow_columns(src: pbf::DenseNodes, i: int, accs: DeltaCodedValues)
    requires
        0 <= i < src.id@.len(),
        src.id@.len() == src.lat@.len(),
        src.id@.len() == src.lon@.len(),
        accs.id == running_sum(src.id@, i),
        accs.lat == running_sum(src.lat@, i),
        accs.lon == running_sum(src.lon@, i),
    ensures
        stepped_accumulators(src, i, accs).id == delta_decoded(src.id@)[i],
        stepped_accumulators(src, i, accs).lat == delta_decoded(src.lat@)[i],
        stepped_accumulators(src, i, accs).lon == delta_decoded(src.lon@)[i],
{
    assert(running_sum(src.id@, i + 1) == i64_specs::wrapping_add(
        running_sum(src.id@, i),
        src.id@[i],
    ));
    assert(running_sum(src.lat@, i + 1) == i64_specs::wrapping_add(
        running_sum(src.lat@, i),
        src.lat@[i],
    ));
    assert(running_sum(src.lon@, i + 1) == i64_specs::wrapping_add(
        running_sum(src.lon@, i),
        src.lon@[i],
    ));
}

/// Delta decoding step shared by the optional 64-bit metadata columns: adds
/// `delta`, if present, to the accumulator with wrapping arithmetic.
fn delta_decode(current: &mut i64, delta: Option<i64>) -> (r: Option<i64>)
    ensures
        match delta {
            Some(d) => *final(current) == i64_specs::wrapping_add(*old(current), d) && r == Some(
                *final(current),
            ),
            None => *final(current) == *old(current) && r is None,
        },
{
    match delta {
        Some(d) => {
            *current = (*current).wrapping_add(d);
            Some(*current)
        },
        None => None,
    }
}

/// Delta decoding step for the 32-bit `uid` column.
fn delta_decode_i32(current: &mut i32, delta: Option<i32>) -> (r: Option<i32>)
    ensures
        match delta {
            Some(d) => *final(current) == i32_specs::wrapping_add(*old(current), d) && r == Some(
                *final(current),
            ),
            None => *final(current) == *old(current) && r is None,
        },
{
    match delta {
        Some(d) => {
            *current = (*current).wrapping_add(d);
            Some(*current)
        },
        None => None,
    }
}

/// Utility for reading delta-encoded dense nodes.
pub struct DenseNodeReader<'a> {
    data: &'a pbf::DenseNodes,
    /// Index of the next node in the columnar arrays.
    pos: usize,
    /// Starting index of the next node's keys/values.
    key_value_idx: usize,
    /// Current values of the delta coded fields.
    current: DeltaCodedValues,
}

impl<'a> DenseNodeReader<'a> {
    /// The dense node section the reader walks.
    pub closed spec fn source(self) -> pbf::DenseNodes {
        *self.data
    }

    /// Index of the next node to be decoded.
    pub closed spec fn cursor(self) -> int {
        self.pos as int
    }

    /// Starting index of the next node's run inside `keys_vals`.
    pub closed spec fn tag_cursor(self) -> int {
        self.key_value_idx as int
    }

    /// The current accumulator values of the delta-coded columns.
    pub closed spec fn accumulators(self) -> DeltaCodedValues {
        self.current
    }

    #[verifier::type_invariant]
    closed spec fn type_inv(self) -> bool {
        &&& self.data.id@.len() == self.data.lat@.len()
        &&& self.data.id@.len() == self.data.lon@.len()
        &&& self.pos <= self.data.id@.len()
    }

    /// Constructs a new `DenseNodeReader` from a dense node section.
    ///
    /// Succeeds exactly when the id, lat and lon columns have equal lengths;
    /// any mismatch is structural corruption and fails the whole stream with
    /// a [`LogicFault::LengthMismatch`] naming the three lengths.
    pub fn new(data: &'a pbf::DenseNodes) -> (r: Result<Self, Error>)
        ensures
            match r {
                Ok(reader) => {
                    &&& data.id@.len() == data.lat@.len()
                    &&& data.id@.len() == data.lon@.len()
                    &&& reader.source() == *data
                    &&& reader.cursor() == 0
                    &&& reader.tag_cursor() == 0
                    &&& reader.accumulators() == (DeltaCodedValues {
                        id: 0i64,
                        lat: 0i64,
                        lon: 0i64,
                        timestamp: 0i64,
                        changeset: 0i64,
                        uid: 0i32,
                        user_sid: 0u32,
                    })
                },
                Err(e) => {
                    &&& !(data.id@.len() == data.lat@.len() && data.id@.len() == data.lon@.len())
                    &&& e == Error::LogicError(LogicFault::LengthMismatch {
                        id_count: data.id@.len() as usize,
                        lat_count: data.lat@.len() as usize,
                        lon_count: data.lon@.len() as usize,
                    })
                },
            },
    {
        if data.lat.len() != data.id.len() || data.lon.len() != data.id.len() {
            Err(
                Error::LogicError(
                    LogicFault::LengthMismatch {
                        id_count: data.id.len(),
                        lat_count: data.lat.len(),
                        lon_count: data.lon.len(),
                    },
                ),
            )
        } else {
            Ok(
                DenseNodeReader {
                    data,
                    pos: 0,
                    key_value_idx: 0,
                    current: DeltaCodedValues {
                        id: 0,
                        lat: 0,
                        lon: 0,
                        timestamp: 0,
                        changeset: 0,
                        uid: 0,
                        user_sid: 0,
                    },
                },
            )
        }
    }

    /// Decodes the next node in column order, `None` once the columns are
    /// exhausted.
    ///
    /// Each yielded node carries the delta-decoded absolute id/lat/lon, an
    /// optional metadata record when the section has metadata columns, and
    /// the node's key/value index run, found by scanning `keys_vals` from the
    /// cursor for the next 0 sentinel at an even offset and advancing past
    /// it. A `user_sid` delta that leaves the unsigned range fails only that
    /// node with a [`LogicFault::UserSidOutOfRange`]; iteration continues
    /// past it, leaving the remaining accumulators and the tag cursor where
    /// they were.
    pub fn next(&mut self) -> (r: Option<Result<DenseNode<'a>, Error>>)
        ensures
            final(self).source() == old(self).source(),
            0 <= final(self).cursor(),
            0 <= final(self).tag_cursor(),
            r is None <==> old(self).cursor() >= old(self).source().id@.len(),
            r is None ==> *final(self) == *old(self),
            old(self).cursor() < old(self).source().id@.len() ==> ({
                let src = old(self).source();
                let i = old(self).cursor();
                let accs = old(self).accumulators();
                let stepped = stepped_accumulators(src, i, accs);
                let kvl = src.keys_vals@.len() as int;
                let start_s = if old(self).tag_cursor() < kvl {
                    old(self).tag_cursor()
                } else {
                    kvl
                };
                let end_s = run_end(src.keys_vals@, start_s);
                &&& final(self).cursor() == i + 1
                &&& final(self).accumulators().id == stepped.id
                &&& final(self).accumulators().lat == stepped.lat
                &&& final(self).accumulators().lon == stepped.lon
                &&& if node_sid_fails(src, i, accs) {
                    &&& (r matches Some(Err(e)) && e == Error::LogicError(
                        LogicFault::UserSidOutOfRange {
                            current: accs.user_sid,
                            delta: node_sid_delta(src, i),
                        },
                    ))
                    &&& final(self).tag_cursor() == old(self).tag_cursor()
                    &&& final(self).accumulators().timestamp == accs.timestamp
                    &&& final(self).accumulators().changeset == accs.changeset
                    &&& final(self).accumulators().uid == accs.uid
                    &&& final(self).accumulators().user_sid == accs.user_sid
                } else {
                    &&& final(self).accumulators() == stepped
                    &&& final(self).tag_cursor() == (if end_s < kvl {
                        end_s + 1
                    } else {
                        kvl
                    })
                    &&& match r {
                        Some(Ok(node)) => {
                            &&& node.id == stepped.id
                            &&& node.lat == stepped.lat
                            &&& node.lon == stepped.lon
                            &&& node.info == decoded_info(src, i, accs)
                            &&& node.key_value_indices@ == src.keys_vals@.subrange(start_s, end_s)
                        },
                        _ => false,
                    }
                }
            }),
    {
        proof {
            use_type_invariant(&*self);
        }
        let data = self.data;
        if self.pos >= data.id.len() {
            return None;
        }
        let i: usize = self.pos;
        self.pos = i + 1;
        self.current.id = self.current.id.wrapping_add(data.id[i]);
        self.current.lat = self.current.lat.wrapping_add(data.lat[i]);
        self.current.lon = self.current.lon.wrapping_add(data.lon[i]);

        let info = match &data.denseinfo {
            Some(dense_info) => {
                let user_sid = if i < dense_info.user_sid.len() {
                    let user_sid_delta = dense_info.user_sid[i];
                    match self.current.user_sid.checked_add_signed(user_sid_delta) {
                        Some(current_user_sid) => {
                            self.current.user_sid = current_user_sid;
                            Some(current_user_sid)
                        },
                        None => {
                            return Some(
                                Err::<DenseNode<'a>, Error>(
                                    Error::LogicError(
                                        LogicFault::UserSidOutOfRange {
                                            current: self.current.user_sid,
                                            delta: user_sid_delta,
                                        },
                                    ),
                                ),
                            );
                        },
                    }
                } else {
                    None
                };
                let version = if i < dense_info.version.len() {
                    Some(dense_info.version[i])
                } else {
                    None
                };
                let mut timestamp_acc = self.current.timestamp;
                let timestamp = delta_decode(
                    &mut timestamp_acc,
                    if i < dense_info.timestamp.len() {
                        Some(dense_info.timestamp[i])
                    } else {
                        None
                    },
                );
                self.current.timestamp = timestamp_acc;
                let mut changeset_acc = self.current.changeset;
                let changeset = delta_decode(
                    &mut changeset_acc,
                    if i < dense_info.changeset.len() {
                        Some(dense_info.changeset[i])
                    } else {
                        None
                    },
                );
                self.current.changeset = changeset_acc;
                let mut uid_acc = self.current.uid;
                let uid = delta_decode_i32(
                    &mut uid_acc,
                    if i < dense_info.uid.len() {
                        Some(dense_info.uid[i])
                    } else {
                        None
                    },
                );
                self.current.uid = uid_acc;
                let visible = if i < dense_info.visible.len() {
                    Some(dense_info.visible[i])
                } else {
                    None
                };
                Some(pbf::Info { version, timestamp, changeset, uid, user_sid, visible })
            },
            None => None,
        };

        let kv_len = data.keys_vals.len();
        let start = if self.key_value_idx < kv_len {
            self.key_value_idx
        } else {
            kv_len
        };
        let mut j: usize = start;
        while j < kv_len && data.keys_vals[j] != 0
            invariant
                start <= j <= kv_len,
                kv_len == data.keys_vals@.len(),
                run_end(data.keys_vals@, start as int) == run_end(data.keys_vals@, j as int),
            decreases kv_len - j,
        {
            proof {
                assert(run_end(data.keys_vals@, j as int) == run_end(
                    data.keys_vals@,
                    j as int + 2,
                ));
            }
            if kv_len - j >= 2 {
                j = j + 2;
            } else {
                proof {
                    assert(run_end(data.keys_vals@, j as int + 2) == kv_len as int);
                    assert(run_end(data.keys_vals@, kv_len as int) == kv_len as int);
                }
                j = kv_len;
            }
        }
        proof {
            if j < kv_len {
                assert(run_end(data.keys_vals@, j as int) == j as int);
            } else {
                assert(run_end(data.keys_vals@, j as int) == kv_len as int);
            }
        }
        self.key_value_idx = if j < kv_len {
            j + 1
        } else {
            kv_len
        };
        let key_value_indices = vstd::slice::slice_subrange(data.keys_vals.as_slice(), start, j);

        Some(
            Ok(
                DenseNode {
                    id: self.current.id,
                    lat: self.current.lat,
                    lon: self.current.lon,
                    info,
                    key_value_indices,
                },
            ),
        )
    }
}

} // verus!
