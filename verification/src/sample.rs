use vstd::prelude::*;

verus! {

/// Width in bytes of one telemetry datagram: the simulation emits one
/// densely packed little-endian record per datagram. Anything of another
/// length is rejected before decoding is attempted.
pub const RECORD_WIDTH: usize = 324;

/// Byte offset of the `is_race_on` flag, a little-endian 32-bit integer;
/// zero means the simulation is not in a race context at all.
pub const OFF_RACE_ON: usize = 0;

/// Byte offset of the vehicle ordinal, a little-endian 32-bit integer.
pub const OFF_VEHICLE_ORDINAL: usize = 212;

/// Byte offset of the vehicle performance-class index, a little-endian
/// 32-bit integer.
pub const OFF_VEHICLE_CLASS: usize = 220;

/// Byte offset of the track position, one byte; zero means "not actively
/// racing", a positive value is the rank while racing.
pub const OFF_TRACK_POSITION: usize = 314;

/// One decoded telemetry sample: the fields the pipeline reads, and the
/// whole record as received. The many physics fields of the record are
/// opaque to the pipeline; `raw` carries them through unchanged to the
/// session's output rows.
#[derive(Clone, Debug)]
pub struct TelemetrySample {
    /// Whether the simulation is in a race context at all.
    pub race_active: bool,
    /// 0 when not actively racing; positive while racing.
    pub track_position: u8,
    /// Performance-class index of the car in use; names the session.
    pub vehicle_class_index: i32,
    /// Ordinal of the car in use; names the session.
    pub vehicle_ordinal: i32,
    /// The record's bytes, verbatim: the opaque payload.
    pub raw: Vec<u8>,
}

/// The little-endian 32-bit value spelled by the four bytes at `off`.
pub open spec fn le_u32_at(b: Seq<u8>, off: int) -> u32 {
    (b[off] as u32) | ((b[off + 1] as u32) << 8) | ((b[off + 2] as u32) << 16) | ((b[off + 3]
        as u32) << 24)
}

/// Whether the record carries a race context.
pub open spec fn active_of(d: Seq<u8>) -> bool {
    le_u32_at(d, OFF_RACE_ON as int) != 0
}

/// The record's track position.
pub open spec fn position_of(d: Seq<u8>) -> u8 {
    d[OFF_TRACK_POSITION as int]
}

/// The record's vehicle performance-class index.
pub open spec fn class_of(d: Seq<u8>) -> i32 {
    le_u32_at(d, OFF_VEHICLE_CLASS as int) as i32
}

/// The record's vehicle ordinal.
pub open spec fn ordinal_of(d: Seq<u8>) -> i32 {
    le_u32_at(d, OFF_VEHICLE_ORDINAL as int) as i32
}

/// `s` is the decoding of record `d`: the core fields read from their
/// fixed offsets, the whole record carried verbatim.
pub open spec fn decodes_to(d: Seq<u8>, s: TelemetrySample) -> bool {
    &&& s.race_active == active_of(d)
    &&& s.track_position == position_of(d)
    &&& s.vehicle_class_index == class_of(d)
    &&& s.vehicle_ordinal == ordinal_of(d)
    &&& s.raw@ == d
}

/// Reads the little-endian 32-bit integer at `off`.
fn read_le_u32(d: &Vec<u8>, off: usize) -> (r: u32)
    requires
        off + 4 <= d@.len(),
    ensures
        r == le_u32_at(d@, off as int),
{
    let n = d.len();
    proof {
        // Places the length, and so `off + 3`, within usize for the
        // index arithmetic below.
        assert(off + 4 <= n);
    }
    let b0 = d[off] as u32;
    let b1 = d[off + 1] as u32;
    let b2 = d[off + 2] as u32;
    let b3 = d[off + 3] as u32;
    b0 | (b1 << 8) | (b2 << 16) | (b3 << 24)
}

/// Validates the datagram's length against the fixed record width and
/// decodes the sample; any other length is rejected (`None`).
pub fn decode(d: &Vec<u8>) -> (r: Option<TelemetrySample>)
    ensures
        r is Some <==> d@.len() == RECORD_WIDTH,
        r matches Some(s) ==> decodes_to(d@, s),
{
    if d.len() != RECORD_WIDTH {
        return None;
    }
    let race_on = read_le_u32(d, OFF_RACE_ON);
    let position = d[OFF_TRACK_POSITION];
    let class = read_le_u32(d, OFF_VEHICLE_CLASS) as i32;
    let ordinal = read_le_u32(d, OFF_VEHICLE_ORDINAL) as i32;
    let raw = d.clone();
    proof {
        assert(raw@ =~= d@);
    }
    Some(
        TelemetrySample {
            race_active: race_on != 0,
            track_position: position,
            vehicle_class_index: class,
            vehicle_ordinal: ordinal,
            raw,
        },
    )
}

} // verus!
