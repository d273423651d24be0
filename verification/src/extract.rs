use crate::datetime::{
    convert_time, datetime_of, digit_char, format_datetime, supported_millis, DateTime,
};
use crate::records::{TrackPoint, TrackRow};
use vstd::prelude::*;
use vstd::string::StringExecFns;

verus! {

/// Errors of the extraction core. Database and output-file failures happen
/// outside the library; the one failure the assembly itself can detect is a
/// point whose owning track is not in the selected set.
#[derive(Clone, Copy, Debug, PartialEq, Eq, Structural)]
pub enum ExtractError {
    OrphanPoint { track_id: i64 },
}

/// The format version marker of the output document.
#[derive(Clone, Copy, Debug, PartialEq, Eq, Structural)]
pub enum GpxVersion {
    Gpx11,
}

/// One output point: the coordinate payloads carried through unchanged
/// from the source row, and the sample instant as a civil date-time.
#[derive(Clone, Copy, Debug, PartialEq, Eq, Structural)]
pub struct OutputPoint {
    pub lat_bits: u64,
    pub lon_bits: u64,
    pub ele_bits: u64,
    pub time: DateTime,
}

/// One output track: its name, its descriptive text, and its single
/// segment of points in time order.
#[derive(Debug)]
pub struct OutputTrack {
    pub name: String,
    pub description: String,
    pub points: Vec<OutputPoint>,
}

/// The document model handed to the serializer: the version marker and
/// the output tracks in load order.
#[derive(Debug)]
pub struct GpxDocument {
    pub version: GpxVersion,
    pub tracks: Vec<OutputTrack>,
}

/// Whether a track passes the optional name filter: with no filter every
/// track passes, with one only the tracks whose name is exactly the
/// filter text.
pub open spec fn track_matches(t: TrackRow, filter: Option<String>) -> bool {
    match filter {
        Option::Some(name) => t.name@ == name@,
        Option::None => true,
    }
}

/// The tracks that the run works on: the loaded tracks that pass the
/// filter, kept in their load order.
pub open spec fn selected_tracks(tracks: Seq<TrackRow>, filter: Option<String>) -> Seq<TrackRow> {
    tracks.filter(|t: TrackRow| track_matches(t, filter))
}

pub open spec fn has_track(tracks: Seq<TrackRow>, id: int) -> bool {
    exists|k: int| 0 <= k < tracks.len() && tracks[k].id == id
}

pub open spec fn output_point_of(p: TrackPoint) -> OutputPoint {
    OutputPoint {
        lat_bits: p.lat_bits,
        lon_bits: p.lon_bits,
        ele_bits: p.ele_bits,
        time: datetime_of(p.time_ms as int),
    }
}

/// The points of the track with the given id, in the order the point
/// sequence delivers them, each converted to an output point.
pub open spec fn points_for_track(points: Seq<TrackPoint>, id: int) -> Seq<OutputPoint> {
    points.filter(|p: TrackPoint| p.track_id == id).map_values(|p: TrackPoint| output_point_of(p))
}

/// The descriptive text of an output track: the literal prefix followed
/// by the ISO-8601 rendering of the track's own recording instant.
pub open spec fn description_text(ms: int) -> Seq<char> {
    "Track Timestamp: "@ + crate::datetime::iso_text(datetime_of(ms))
}

/// Build the descriptive text of a track recorded at the given
/// reference-epoch instant.
pub fn description_for(ms: i64) -> (r: String)
    requires
        supported_millis(ms as int),
    ensures
        r@ == description_text(ms as int),
{
    let dt = convert_time(ms);
    let mut s = String::from_str("Track Timestamp: ");
    let iso = format_datetime(&dt);
    s.append(iso.as_str());
    s
}

/// What the assembly owes for one output track: the source track's name,
/// its formatted description, and exactly its own points.
pub open spec fn track_built(out: OutputTrack, t: TrackRow, points: Seq<TrackPoint>) -> bool {
    &&& out.name@ == t.name@
    &&& out.description@ == description_text(t.time_ms as int)
    &&& out.points@ == points_for_track(points, t.id as int)
}

/// Keep the tracks that pass the optional exact-name filter, in load order.
pub fn filter_tracks(tracks: &Vec<TrackRow>, track_name: &Option<String>) -> (r: Vec<TrackRow>)
    ensures
        r@ == selected_tracks(tracks@, *track_name),
{
    let mut out: Vec<TrackRow> = Vec::new();
    let mut i: usize = 0;
    while i < tracks.len()
        invariant
            i <= tracks@.len(),
            out@ == selected_tracks(tracks@.take(i as int), *track_name),
        decreases tracks@.len() - i,
    {
        let keep = match track_name {
            Option::Some(name) => tracks[i].name.eq(name),
            Option::None => true,
        };
        if keep {
            let t = tracks[i].clone();
            out.push(t);
        }
        i += 1;
        proof {
            reveal(Seq::filter);
            assert(tracks@.take(i as int).drop_last() =~= tracks@.take(i as int - 1));
            assert(out@ =~= selected_tracks(tracks@.take(i as int), *track_name));
        }
    }
    proof {
        assert(tracks@.take(tracks@.len() as int) =~= tracks@);
    }
    out
}

/// Omitting the filter is a passthrough: every track is selected, in its
/// original load order.
pub proof fn lemma_no_filter_selects_all(tracks: Seq<TrackRow>)
    ensures
        selected_tracks(tracks, Option::None) == tracks,
    decreases tracks.len(),
{
    reveal(Seq::filter);
    if tracks.len() == 0 {
        assert(selected_tracks(tracks, Option::None) =~= tracks);
    } else {
        lemma_no_filter_selects_all(tracks.drop_last());
        assert(selected_tracks(tracks, Option::None) =~= tracks);
    }
}

/// Filtering by a name keeps exactly the tracks bearing that name: every
/// selected track bears it, and every track bearing it is selected.
pub proof fn lemma_filter_selects_matching(tracks: Seq<TrackRow>, name: String)
    ensures
        forall|i: int|
            0 <= i < selected_tracks(tracks, Option::Some(name)).len() ==> (
            #[trigger] selected_tracks(tracks, Option::Some(name))[i]).name@ == name@,
        forall|k: int|
            0 <= k < tracks.len() && (#[trigger] tracks[k]).name@ == name@ ==> selected_tracks(
                tracks,
                Option::Some(name),
            ).contains(tracks[k]),
{
    broadcast use vstd::seq_lib::group_filter_ensures;

}

pub open spec fn decimal_text_u(n: int) -> Seq<char>
    decreases n,
{
    if n < 10 {
        seq![digit_char(n)]
    } else {
        decimal_text_u(n / 10) + seq![digit_char(n % 10)]
    }
}

/// Decimal rendering of a track id, with a leading minus sign when it is
/// negative.
pub open spec fn decimal_text(n: int) -> Seq<char> {
    if n < 0 {
        seq!['-'] + decimal_text_u(-n)
    } else {
        decimal_text_u(n)
    }
}

/// The ids of the given tracks, rendered in order and joined by a comma
/// and a space: the restriction list interpolated into the point query.
pub open spec fn id_list_text(tracks: Seq<TrackRow>) -> Seq<char>
    decreases tracks.len(),
{
    if tracks.len() == 0 {
        Seq::empty()
    } else if tracks.len() == 1 {
        decimal_text(tracks[0].id as int)
    } else {
        id_list_text(tracks.drop_last()) + seq![',', ' '] + decimal_text(tracks.last().id as int)
    }
}

fn decimal_string_u(n: u64) -> (r: String)
    ensures
        r@ == decimal_text_u(n as int),
    decreases n,
{
    if n < 10 {
        String::from_str(crate::datetime::digit_str(n))
    } else {
        let mut s = decimal_string_u(n / 10);
        s.append(crate::datetime::digit_str(n % 10));
        s
    }
}

/// Render a track id in decimal.
pub fn decimal_string(n: i64) -> (r: String)
    ensures
        r@ == decimal_text(n as int),
{
    if n >= 0 {
        decimal_string_u(n as u64)
    } else {
        let mag: u64 = ((-(n + 1)) as u64) + 1;
        let mut s = String::from_str("-");
        let digits = decimal_string_u(mag);
        s.append(digits.as_str());
        proof {
            reveal_strlit("-");
            assert(s@ =~= decimal_text(n as int));
        }
        s
    }
}

/// Format the selected tracks' ids into the comma-separated restriction
/// list of the point query.
pub fn track_id_list(tracks: &Vec<TrackRow>) -> (r: String)
    ensures
        r@ == id_list_text(tracks@),
{
    let mut s = String::new();
    let mut i: usize = 0;
    while i < tracks.len()
        invariant
            i <= tracks@.len(),
            s@ == id_list_text(tracks@.take(i as int)),
        decreases tracks@.len() - i,
    {
        if i > 0 {
            s.append(", ");
        }
        let digits = decimal_string(tracks[i].id);
        s.append(digits.as_str());
        i += 1;
        proof {
            reveal_strlit(", ");
            assert(tracks@.take(i as int).drop_last() =~= tracks@.take(i as int - 1));
            assert(s@ =~= id_list_text(tracks@.take(i as int)));
        }
    }
    proof {
        assert(tracks@.take(tracks@.len() as int) =~= tracks@);
    }
    s
}

fn tracks_contain(tracks: &Vec<TrackRow>, id: i64) -> (b: bool)
    ensures
        b == has_track(tracks@, id as int),
{
    let mut k: usize = 0;
    while k < tracks.len()
        invariant
            k <= tracks@.len(),
            forall|j: int| 0 <= j < k ==> (#[trigger] tracks@[j]).id != id,
        decreases tracks@.len() - k,
    {
        if tracks[k].id == id {
            proof {
                assert(0 <= k < tracks@.len() && tracks@[k as int].id == id as int);
            }
            return true;
        }
        k += 1;
    }
    false
}

/// Assemble the output document from the loaded rows.
///
/// The tracks are filtered by the optional exact-name filter; each
/// selected track becomes one output track, in load order, carrying its
/// name, its formatted description, and its own points in the order the
/// time-sorted point sequence delivers them. A point whose owning track
/// is not in the selected set is an orphan: the first one aborts the run
/// with `OrphanPoint`. An empty selection with no points yields a valid
/// empty document.
pub fn extract(tracks: Vec<TrackRow>, points: Vec<TrackPoint>, track_name: Option<String>) -> (r:
    Result<GpxDocument, ExtractError>)
    requires
        forall|i: int|
            0 <= i < selected_tracks(tracks@, track_name).len() ==> supported_millis(
                (#[trigger] selected_tracks(tracks@, track_name)[i]).time_ms as int,
            ),
        forall|j: int|
            0 <= j < points@.len() ==> supported_millis((#[trigger] points@[j]).time_ms as int),
    ensures
        (match r {
            Result::Ok(doc) => {
                let sel = selected_tracks(tracks@, track_name);
                &&& doc.version == GpxVersion::Gpx11
                &&& doc.tracks@.len() == sel.len()
                &&& forall|i: int|
                    0 <= i < sel.len() ==> track_built(#[trigger] doc.tracks@[i], sel[i], points@)
                &&& forall|j: int|
                    0 <= j < points@.len() ==> has_track(
                        sel,
                        (#[trigger] points@[j]).track_id as int,
                    )
            },
            Result::Err(e) => {
                let sel = selected_tracks(tracks@, track_name);
                match e {
                    ExtractError::OrphanPoint { track_id } => exists|j: int|
                        0 <= j < points@.len() && (#[trigger] points@[j]).track_id == track_id
                            && !has_track(sel, points@[j].track_id as int) && (forall|k: int|
                            0 <= k < j ==> has_track(sel, (#[trigger] points@[k]).track_id as int)),
                }
            },
        }),
{
    let selected = filter_tracks(&tracks, &track_name);

    // Reject the first point whose owning track is not selected.
    let mut j: usize = 0;
    while j < points.len()
        invariant
            j <= points@.len(),
            selected@ == selected_tracks(tracks@, track_name),
            forall|k: int|
                0 <= k < j ==> has_track(selected@, (#[trigger] points@[k]).track_id as int),
        decreases points@.len() - j,
    {
        if !tracks_contain(&selected, points[j].track_id) {
            return Err(ExtractError::OrphanPoint { track_id: points[j].track_id });
        }
        j += 1;
    }

    // Build one output track per selected track, in load order.
    let mut out_tracks: Vec<OutputTrack> = Vec::new();
    let mut i: usize = 0;
    while i < selected.len()
        invariant
            i <= selected@.len(),
            selected@ == selected_tracks(tracks@, track_name),
            out_tracks@.len() == i,
            forall|k: int|
                0 <= k < points@.len() ==> supported_millis((#[trigger] points@[k]).time_ms as int),
            forall|k: int|
                0 <= k < selected@.len() ==> supported_millis(
                    (#[trigger] selected@[k]).time_ms as int,
                ),
            forall|k: int|
                0 <= k < i ==> track_built(#[trigger] out_tracks@[k], selected@[k], points@),
        decreases selected@.len() - i,
    {
        let tid = selected[i].id;
        let mut pts: Vec<OutputPoint> = Vec::new();
        let mut j2: usize = 0;
        while j2 < points.len()
            invariant
                j2 <= points@.len(),
                forall|k: int|
                    0 <= k < points@.len() ==> supported_millis(
                        (#[trigger] points@[k]).time_ms as int,
                    ),
                pts@ == points_for_track(points@.take(j2 as int), tid as int),
            decreases points@.len() - j2,
        {
            let p = points[j2];
            if p.track_id == tid {
                let op = OutputPoint {
                    lat_bits: p.lat_bits,
                    lon_bits: p.lon_bits,
                    ele_bits: p.ele_bits,
                    time: convert_time(p.time_ms),
                };
                pts.push(op);
            }
            j2 += 1;
            proof {
                reveal(Seq::filter);
                assert(points@.take(j2 as int).drop_last() =~= points@.take(j2 as int - 1));
                assert(pts@ =~= points_for_track(points@.take(j2 as int), tid as int));
            }
        }
        proof {
            assert(points@.take(points@.len() as int) =~= points@);
        }
        let name = selected[i].name.clone();
        let description = description_for(selected[i].time_ms);
        out_tracks.push(OutputTrack { name, description, points: pts });
        i += 1;
    }
    Ok(GpxDocument { version: GpxVersion::Gpx11, tracks: out_tracks })
}

} // verus!
