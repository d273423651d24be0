use track2gpx::cli::Cli;
use track2gpx::extract::{
    decimal_string, description_for, extract, filter_tracks, track_id_list, ExtractError,
    GpxVersion,
};
use track2gpx::records::{TrackPoint, TrackRow};

fn track(id: i64, name: &str, time_ms: i64) -> TrackRow {
    TrackRow { id, name: name.to_string(), time_ms }
}

fn point(track_id: i64, lat: f64, lon: f64, ele: f64, time_ms: i64) -> TrackPoint {
    TrackPoint {
        track_id,
        lat_bits: lat.to_bits(),
        lon_bits: lon.to_bits(),
        ele_bits: ele.to_bits(),
        time_ms,
    }
}

#[test]
fn round_trip_two_tracks() {
    let tracks = vec![track(1, "Morning Run", 0), track(2, "Evening Walk", 86_400_000)];
    let points = vec![
        point(1, 51.5, -0.1, 10.0, 1_000),
        point(1, 51.6, -0.2, 11.0, 2_000),
        point(1, 51.7, -0.3, 12.0, 3_000),
        point(2, 48.8, 2.3, 30.0, 86_401_000),
        point(2, 48.9, 2.4, 31.0, 86_402_000),
    ];
    let doc = extract(tracks, points, None).unwrap();
    assert_eq!(doc.version, GpxVersion::Gpx11);
    assert_eq!(doc.tracks.len(), 2);
    assert_eq!(doc.tracks[0].name, "Morning Run");
    assert_eq!(doc.tracks[1].name, "Evening Walk");
    assert_eq!(doc.tracks[0].points.len(), 3);
    assert_eq!(doc.tracks[1].points.len(), 2);
    // Point order inside a track follows the time-ascending input order,
    // and the coordinate payloads come through bit-for-bit.
    assert_eq!(doc.tracks[0].points[0].lat_bits, 51.5_f64.to_bits());
    assert_eq!(doc.tracks[0].points[1].lat_bits, 51.6_f64.to_bits());
    assert_eq!(doc.tracks[0].points[2].lat_bits, 51.7_f64.to_bits());
    assert_eq!(doc.tracks[0].points[0].time.second, 1);
    assert_eq!(doc.tracks[0].points[1].time.second, 2);
    assert_eq!(doc.tracks[1].points[0].lon_bits, 2.3_f64.to_bits());
    assert_eq!(doc.tracks[1].points[0].time.day, 2);
}

#[test]
fn filter_selects_only_matching_track() {
    let tracks = vec![track(1, "Morning Run", 0), track(2, "Evening Walk", 1_000)];
    let points = vec![point(1, 51.5, -0.1, 10.0, 500)];
    let doc = extract(tracks, points, Some("Morning Run".to_string())).unwrap();
    assert_eq!(doc.tracks.len(), 1);
    assert_eq!(doc.tracks[0].name, "Morning Run");
    assert_eq!(doc.tracks[0].points.len(), 1);
}

#[test]
fn filter_tracks_exact_match() {
    let tracks = vec![
        track(1, "Morning Run", 0),
        track(2, "Evening Walk", 1_000),
        track(3, "Morning Run", 2_000),
    ];
    let selected = filter_tracks(&tracks, &Some("Morning Run".to_string()));
    assert_eq!(selected.len(), 2);
    assert_eq!(selected[0].id, 1);
    assert_eq!(selected[1].id, 3);
    // Case-sensitive, exact: no match for a different casing.
    let none = filter_tracks(&tracks, &Some("morning run".to_string()));
    assert_eq!(none.len(), 0);
}

#[test]
fn no_filter_keeps_load_order() {
    let tracks = vec![
        track(7, "B", 0),
        track(3, "A", 1_000),
        track(5, "C", 2_000),
    ];
    let selected = filter_tracks(&tracks, &None);
    assert_eq!(selected.len(), 3);
    assert_eq!(selected[0].id, 7);
    assert_eq!(selected[1].id, 3);
    assert_eq!(selected[2].id, 5);
    let doc = extract(tracks, vec![], None).unwrap();
    assert_eq!(doc.tracks[0].name, "B");
    assert_eq!(doc.tracks[1].name, "A");
    assert_eq!(doc.tracks[2].name, "C");
}

#[test]
fn orphan_point_is_detected() {
    let tracks = vec![track(1, "Morning Run", 0)];
    let points = vec![
        point(1, 51.5, -0.1, 10.0, 500),
        point(99, 0.0, 0.0, 0.0, 600),
    ];
    let err = extract(tracks, points, None).unwrap_err();
    assert_eq!(err, ExtractError::OrphanPoint { track_id: 99 });
}

#[test]
fn filtered_out_track_point_is_orphan() {
    let tracks = vec![track(1, "Morning Run", 0), track(2, "Evening Walk", 1_000)];
    let points = vec![point(2, 48.8, 2.3, 30.0, 500)];
    let err = extract(tracks, points, Some("Morning Run".to_string())).unwrap_err();
    assert_eq!(err, ExtractError::OrphanPoint { track_id: 2 });
}

#[test]
fn empty_selection_yields_empty_document() {
    let tracks = vec![track(1, "Morning Run", 0)];
    let doc = extract(tracks, vec![], Some("No Such Track".to_string())).unwrap();
    assert_eq!(doc.tracks.len(), 0);
    assert_eq!(doc.version, GpxVersion::Gpx11);
}

#[test]
fn empty_database_yields_empty_document() {
    let doc = extract(vec![], vec![], None).unwrap();
    assert_eq!(doc.tracks.len(), 0);
}

#[test]
fn description_matches_pattern() {
    let tracks = vec![track(1, "Morning Run", 0)];
    let doc = extract(tracks, vec![], None).unwrap();
    assert_eq!(doc.tracks[0].description, "Track Timestamp: 2001-01-01T00:00:00Z");
}

#[test]
fn description_for_fractional_instant() {
    assert_eq!(
        description_for(86_400_000 + 1_500),
        "Track Timestamp: 2001-01-02T00:00:01.500Z"
    );
}

#[test]
fn id_list_joins_with_comma_space() {
    let tracks = vec![track(1, "a", 0), track(2, "b", 0), track(3, "c", 0)];
    assert_eq!(track_id_list(&tracks), "1, 2, 3");
}

#[test]
fn id_list_single_and_empty() {
    let one = vec![track(42, "a", 0)];
    assert_eq!(track_id_list(&one), "42");
    let none: Vec<TrackRow> = vec![];
    assert_eq!(track_id_list(&none), "");
}

#[test]
fn id_list_negative_id() {
    let tracks = vec![track(-5, "a", 0), track(10, "b", 0)];
    assert_eq!(track_id_list(&tracks), "-5, 10");
}

#[test]
fn decimal_rendering() {
    assert_eq!(decimal_string(0), "0");
    assert_eq!(decimal_string(1_234_567_890_123), "1234567890123");
    assert_eq!(decimal_string(-1), "-1");
    assert_eq!(decimal_string(i64::MIN), "-9223372036854775808");
    assert_eq!(decimal_string(i64::MAX), "9223372036854775807");
}

#[test]
fn cli_carries_arguments() {
    let cli = Cli {
        sqlite_path: "tracks.sqlite".to_string(),
        output_path: "out.gpx".to_string(),
        track_name: Some("Morning Run".to_string()),
    };
    assert_eq!(cli.sqlite_path, "tracks.sqlite");
    assert_eq!(cli.output_path, "out.gpx");
    assert_eq!(cli.track_name.as_deref(), Some("Morning Run"));
}
