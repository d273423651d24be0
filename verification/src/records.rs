use vstd::prelude::*;

verus! {

/// One logical track as read from the track table: primary key, display
/// name (not necessarily unique), and the moment the track was recorded,
/// in milliseconds since the reference epoch 2001-01-01T00:00:00 UTC.
pub struct TrackRow {
    pub id: i64,
    pub name: String,
    pub time_ms: i64,
}

impl Clone for TrackRow {
    fn clone(&self) -> (r: Self)
        ensures
            r == *self,
    {
        TrackRow { id: self.id, name: self.name.clone(), time_ms: self.time_ms }
    }
}

/// One GPS sample as read from the point table. Latitude, longitude and
/// elevation are stored as the IEEE-754 bit patterns of the database's
/// double-precision values; the library never interprets them, it only
/// carries them through to the output unchanged.
#[derive(Clone, Copy, PartialEq, Eq, Structural)]
pub struct TrackPoint {
    pub track_id: i64,
    pub lat_bits: u64,
    pub lon_bits: u64,
    pub ele_bits: u64,
    pub time_ms: i64,
}

} // verus!
