use layout21::coords::{DbUnits, Dir};
use layout21::error::LayoutError;
use layout21::tracks::{LayerPeriod, Track, TrackSegment};

fn wire(net: Option<&str>, start: isize, stop: isize) -> TrackSegment {
    TrackSegment {
        net: net.map(|s| s.to_string()),
        start: DbUnits(start),
        stop: DbUnits(stop),
    }
}

fn track(segments: Vec<TrackSegment>) -> Track {
    Track { dir: Dir::Horiz, start: DbUnits(0), width: DbUnits(10), segments }
}

fn wires(t: &Track) -> Vec<(Option<&str>, isize, isize)> {
    t.segments.iter().map(|s| (s.net.as_deref(), s.start.0, s.stop.0)).collect()
}

#[test]
fn cut_in_the_middle_keeps_the_net() {
    let mut t = track(vec![wire(Some("a"), 0, 100), wire(None, 200, 300)]);
    t.cut(DbUnits(20), DbUnits(30)).unwrap();
    assert_eq!(wires(&t), vec![(Some("a"), 0, 20), (Some("a"), 30, 100), (None, 200, 300)]);
}

#[test]
fn cut_at_the_ends() {
    let mut t = track(vec![wire(None, 0, 100)]);
    t.cut(DbUnits(0), DbUnits(10)).unwrap();
    assert_eq!(wires(&t), vec![(None, 10, 100)]);
    t.cut(DbUnits(90), DbUnits(100)).unwrap();
    assert_eq!(wires(&t), vec![(None, 10, 90)]);
    t.cut(DbUnits(10), DbUnits(90)).unwrap();
    assert_eq!(wires(&t), vec![]);
}

#[test]
fn cut_across_wires_is_refused() {
    for (start, stop) in [(90, 210), (100, 200), (250, 310), (-1, 5), (50, 50), (60, 50)] {
        let mut t = track(vec![wire(Some("a"), 0, 100), wire(None, 200, 300)]);
        let r = t.cut(DbUnits(start), DbUnits(stop));
        assert!(matches!(
            r,
            Err(LayoutError::Str(s)) if s == "Cut Error: not a contiguous wire segment"
        ));
        assert_eq!(wires(&t), vec![(Some("a"), 0, 100), (None, 200, 300)]);
    }
}

#[test]
fn wires_are_found_and_assigned() {
    let mut t = track(vec![wire(None, 0, 100), wire(Some("b"), 200, 300)]);
    assert_eq!(t.segment_at(DbUnits(0)), Some(0));
    assert_eq!(t.segment_at(DbUnits(100)), Some(0));
    assert_eq!(t.segment_at(DbUnits(150)), None);
    assert_eq!(t.segment_at(DbUnits(200)), Some(1));
    assert_eq!(t.segment_at(DbUnits(301)), None);
    let net = "n".to_string();
    assert!(!t.assign(DbUnits(150), &net));
    assert!(t.assign(DbUnits(250), &net));
    assert_eq!(wires(&t), vec![(None, 0, 100), (Some("n"), 200, 300)]);
}

#[test]
fn period_is_cut_on_every_track() {
    let p = LayerPeriod {
        rails: vec![track(vec![wire(Some("VSS"), 0, 100)])],
        signals: vec![track(vec![wire(None, 0, 100)]), track(vec![wire(None, 0, 40)])],
    };
    let p = p.cut(DbUnits(10), DbUnits(20)).unwrap();
    assert_eq!(wires(&p.rails[0]), vec![(Some("VSS"), 0, 10), (Some("VSS"), 20, 100)]);
    assert_eq!(wires(&p.signals[0]), vec![(None, 0, 10), (None, 20, 100)]);
    assert_eq!(wires(&p.signals[1]), vec![(None, 0, 10), (None, 20, 40)]);
    assert!(p.cut(DbUnits(30), DbUnits(50)).is_err());
}
