use std::collections::HashSet;

use layout21::abstrakt::{Abstract, Port, PortKind, Side};
use layout21::cell::{AbstractKey, Cell, CellKey, CellRef, Instance, Library};
use layout21::coords::{DbUnits, Dir, LayerPitches, PrimPitches, UnitSpeced, Xy};
use layout21::error::{LayoutError, LayoutResult};
use layout21::outline::{HasOutline, Outline};
use layout21::raw;
use layout21::raw::{Layer, LayerKey, LayerPurpose, Shape, Units};
use layout21::rawconv::RawConverter;
use layout21::slots::AssignKey;
use layout21::stack::{
    MetalLayer, PeriodSpec, PrimLayer, TrackSpec, ValidMetalLayer, ValidStack, ViaLayer,
};
use layout21::temp::{TempCellLayer, TempPeriod};
use layout21::validate::{ValidAssign, ValidTrackLoc};

type Pt = (isize, isize);

fn layer(num: i16) -> Layer {
    Layer { layernum: num, name: None }
}

fn track(start: isize, width: isize, net: Option<&str>) -> TrackSpec {
    TrackSpec { start: DbUnits(start), width: DbUnits(width), net: net.map(|s| s.to_string()) }
}

/// Two metal layers on a primitive grid of 100 by 50: a horizontal one with a rail and two
/// signals every 100, and a vertical one with a single signal every 200.
fn stack() -> ValidStack {
    let m0 = ValidMetalLayer {
        spec: MetalLayer { dir: Dir::Horiz, cutsize: DbUnits(10), raw: Some(layer(1)) },
        index: 0,
        pitch: DbUnits(100),
        period: PeriodSpec {
            rails: vec![track(0, 5, Some("VSS"))],
            signals: vec![track(20, 10, None), track(60, 10, None)],
        },
    };
    let m1 = ValidMetalLayer {
        spec: MetalLayer { dir: Dir::Vert, cutsize: DbUnits(9), raw: Some(layer(2)) },
        index: 1,
        pitch: DbUnits(200),
        period: PeriodSpec { rails: vec![], signals: vec![track(90, 20, None)] },
    };
    ValidStack {
        units: Units::Nano,
        boundary_layer: Some(layer(9)),
        prim: PrimLayer { pitches: Xy { x: DbUnits(100), y: DbUnits(50) } },
        metals: vec![m0, m1],
        vias: vec![
            ViaLayer { size: Xy { x: DbUnits(4), y: DbUnits(6) }, raw: Some(layer(3)) },
            ViaLayer { size: Xy { x: DbUnits(4), y: DbUnits(6) }, raw: Some(layer(4)) },
        ],
    }
}

fn h(num: isize) -> PrimPitches {
    PrimPitches { dir: Dir::Horiz, num }
}

fn v(num: isize) -> PrimPitches {
    PrimPitches { dir: Dir::Vert, num }
}

fn rect(x: isize, y: isize) -> Outline {
    Outline { x: vec![h(x)], y: vec![v(y)] }
}

fn loc(layer: usize, track: usize, dist: isize) -> ValidTrackLoc {
    ValidTrackLoc { layer, track, dist: DbUnits(dist) }
}

fn assign(net: &str, bot: ValidTrackLoc, top: ValidTrackLoc) -> LayoutResult<ValidAssign> {
    Ok(ValidAssign { net: net.to_string(), bot, top })
}

fn cell(name: &str, top_layer: usize, outline: Outline) -> Cell {
    Cell {
        name: name.to_string(),
        top_layer,
        outline,
        instances: vec![],
        assignments: vec![],
        cuts: vec![],
    }
}

fn inst(name: &str, r: CellRef, x: isize, y: isize) -> Instance {
    Instance {
        inst_name: name.to_string(),
        cell_name: "sub".to_string(),
        cell: r,
        loc: Xy { x: h(x), y: v(y) },
        reflect: true,
        angle: Some(90),
    }
}

fn lib(cells: Vec<Cell>, abstracts: Vec<Abstract>) -> Library {
    Library { name: "lib".to_string(), cells, abstracts }
}

fn converter(lib: Library, stack: ValidStack) -> RawConverter {
    RawConverter {
        lib,
        stack,
        rawlayers: raw::Layers { layers: vec![layer(1), layer(2), layer(9)] },
        layerkeys: vec![LayerKey { index: 0 }, LayerKey { index: 1 }],
        boundary_layer: LayerKey { index: 2 },
    }
}

fn rects(elems: &[raw::Element]) -> Vec<(Option<&str>, usize, Pt, Pt)> {
    let mut out = vec![];
    for e in elems {
        if let Shape::Rect { p0, p1 } = &e.inner {
            assert_eq!(e.purpose, LayerPurpose::Drawing);
            out.push((e.net.as_deref(), e.layer.index, (p0.x, p0.y), (p1.x, p1.y)));
        }
    }
    out
}

fn poly(elem: &raw::Element) -> Vec<Pt> {
    match &elem.inner {
        Shape::Poly { pts } => pts.iter().map(|p| (p.x, p.y)).collect(),
        _ => panic!("not a polygon"),
    }
}

fn message<T>(r: LayoutResult<T>) -> String {
    match r {
        Ok(_) => panic!("not an error"),
        Err(LayoutError::Str(s)) => s,
        Err(LayoutError::Export(s)) => s,
    }
}

fn failure<T>(msg: &str) -> LayoutResult<T> {
    Err(LayoutError::msg(msg))
}

#[test]
fn convert_whole_library() {
    let mut c = cell("top", 2, rect(4, 4));
    c.cuts.push(Ok(loc(0, 0, 200)));
    c.assignments.push(assign("a", loc(0, 0, 90), loc(1, 0, 40)));
    let r = RawConverter::convert(lib(vec![c], vec![]), Ok(stack())).unwrap();
    assert_eq!(r.name, "lib");
    assert_eq!(r.units, Units::Nano);
    let nums: Vec<i16> = r.layers.layers.iter().map(|l| l.layernum).collect();
    assert_eq!(nums, vec![1, 2, 9]);
    assert_eq!(r.cells.len(), 1);
    let top = &r.cells[0];
    assert_eq!(top.name, "top");
    assert!(top.insts.is_empty());
    assert_eq!(
        rects(&top.elems),
        vec![
            // First period of the lower layer: via, rail, cut signal, signal
            (None, 0, (88, 37), (92, 43)),
            (Some("VSS"), 0, (0, 0), (400, 5)),
            (Some("a"), 0, (0, 20), (195, 30)),
            (None, 0, (205, 20), (400, 30)),
            (None, 0, (0, 60), (400, 70)),
            // Second period
            (Some("VSS"), 0, (0, 100), (400, 105)),
            (None, 0, (0, 120), (400, 130)),
            (None, 0, (0, 160), (400, 170)),
            // Upper layer
            (Some("a"), 1, (90, 0), (110, 200)),
            (None, 1, (290, 0), (310, 200)),
        ]
    );
    let outline = top.elems.last().unwrap();
    assert_eq!(top.elems.len(), 11);
    assert_eq!(outline.purpose, LayerPurpose::Outline);
    assert_eq!(outline.layer.index, 2);
    assert!(outline.net.is_none());
    assert_eq!(poly(outline), vec![(0, 0), (400, 0), (400, 200), (0, 200)]);
}

#[test]
fn instances_block_tracks_and_are_placed() {
    let sub = cell("sub", 1, rect(1, 2));
    let mut top = cell("top", 2, rect(4, 4));
    top.instances.push(inst("i0", CellRef::Cell(CellKey { index: 0 }), 1, 0));
    let r = RawConverter::convert(lib(vec![sub, top], vec![]), Ok(stack())).unwrap();
    let names: Vec<&str> = r.cells.iter().map(|c| c.name.as_str()).collect();
    assert_eq!(names, vec!["sub", "top"]);
    let top = &r.cells[1];
    assert_eq!(
        rects(&top.elems),
        vec![
            // The first period is blocked from 100 to 200
            (Some("VSS"), 0, (0, 0), (100, 5)),
            (Some("VSS"), 0, (200, 0), (400, 5)),
            (None, 0, (0, 20), (100, 30)),
            (None, 0, (200, 20), (400, 30)),
            (None, 0, (0, 60), (100, 70)),
            (None, 0, (200, 60), (400, 70)),
            // The second one is only touched
            (Some("VSS"), 0, (0, 100), (400, 105)),
            (None, 0, (0, 120), (400, 130)),
            (None, 0, (0, 160), (400, 170)),
            // On the upper layer the block is at the end of the track
            (None, 1, (90, 100), (110, 200)),
            (None, 1, (290, 0), (310, 200)),
        ]
    );
    assert_eq!(top.insts.len(), 1);
    let i = &top.insts[0];
    assert_eq!(i.inst_name, "i0");
    assert_eq!(i.cell_name, "sub");
    assert!(matches!(i.cell, CellRef::Cell(CellKey { index: 0 })));
    assert_eq!((i.p0.x, i.p0.y), (100, 0));
    assert!(i.reflect);
    assert_eq!(i.angle, Some(90));
}

#[test]
fn low_instances_do_not_block_high_layers() {
    let sub = cell("sub", 0, rect(1, 2));
    let mut top = cell("top", 2, rect(4, 4));
    top.instances.push(inst("i0", CellRef::Cell(CellKey { index: 0 }), 1, 0));
    let r = RawConverter::convert(lib(vec![sub, top], vec![]), Ok(stack())).unwrap();
    let on_upper: Vec<_> = rects(&r.cells[1].elems).into_iter().filter(|e| e.1 == 1).collect();
    assert_eq!(
        on_upper,
        vec![(None, 1, (90, 0), (110, 200)), (None, 1, (290, 0), (310, 200))]
    );
    // A cell without metal is just its outline
    assert_eq!(r.cells[0].elems.len(), 1);
}

#[test]
fn instance_of_abstract() {
    let abs = Abstract {
        name: "abs".to_string(),
        outline: rect(1, 2),
        top_layer: 1,
        ports: vec![],
    };
    let mut top = cell("top", 1, rect(4, 2));
    top.instances.push(inst("i0", CellRef::Abstract(AbstractKey { index: 0 }), 2, 0));
    let r = RawConverter::convert(lib(vec![top], vec![abs]), Ok(stack())).unwrap();
    let names: Vec<&str> = r.cells.iter().map(|c| c.name.as_str()).collect();
    assert_eq!(names, vec!["top", "abs"]);
    assert_eq!(
        rects(&r.cells[0].elems),
        vec![
            (Some("VSS"), 0, (0, 0), (200, 5)),
            (Some("VSS"), 0, (300, 0), (400, 5)),
            (None, 0, (0, 20), (200, 30)),
            (None, 0, (300, 20), (400, 30)),
            (None, 0, (0, 60), (200, 70)),
            (None, 0, (300, 60), (400, 70)),
        ]
    );
}

#[test]
fn abstract_of_defined_name_is_not_converted_again() {
    let abs = |name: &str| Abstract {
        name: name.to_string(),
        outline: rect(1, 1),
        top_layer: 0,
        ports: vec![],
    };
    let cells = vec![cell("x", 0, rect(1, 1)), cell("y", 0, rect(2, 1))];
    let abstracts = vec![abs("a"), abs("y"), abs("b"), abs("x")];
    let r = RawConverter::convert(lib(cells, abstracts), Ok(stack())).unwrap();
    let names: Vec<&str> = r.cells.iter().map(|c| c.name.as_str()).collect();
    assert_eq!(names, vec!["x", "y", "a", "b"]);
    assert_eq!(poly(&r.cells[1].elems[0]), vec![(0, 0), (200, 0), (200, 50), (0, 50)]);
    assert_eq!(poly(&r.cells[2].elems[0]), vec![(0, 0), (100, 0), (100, 50), (0, 50)]);
}

#[test]
fn all_abstracts_implemented() {
    let abs = Abstract {
        name: "top".to_string(),
        outline: rect(3, 3),
        top_layer: 0,
        ports: vec![],
    };
    let top = cell("top", 0, rect(1, 1));
    let r = RawConverter::convert(lib(vec![top], vec![abs]), Ok(stack())).unwrap();
    assert_eq!(r.cells.len(), 1);
    assert_eq!(poly(&r.cells[0].elems[0]), vec![(0, 0), (100, 0), (100, 50), (0, 50)]);
}

#[test]
fn abstract_ports() {
    let port = |name: &str, layer: usize, track: usize, side: Side| Port {
        name: name.to_string(),
        kind: PortKind::Edge { layer, track, side },
    };
    let abs = Abstract {
        name: "abs".to_string(),
        outline: rect(4, 6),
        top_layer: 2,
        ports: vec![
            port("a", 0, 0, Side::BottomOrLeft),
            port("b", 0, 3, Side::TopOrRight),
            port("c", 1, 1, Side::BottomOrLeft),
            port("d", 1, 0, Side::TopOrRight),
        ],
    };
    let c = converter(lib(vec![], vec![]), stack());
    let r = c.convert_abstract(&abs).unwrap();
    assert_eq!(r.name, "abs");
    assert!(r.insts.is_empty());
    assert_eq!(r.elems.len(), 5);
    assert_eq!(poly(&r.elems[0]), vec![(0, 0), (400, 0), (400, 300), (0, 300)]);
    assert_eq!(
        rects(&r.elems),
        vec![
            (Some("a"), 0, (0, 20), (100, 30)),
            (Some("b"), 0, (300, 160), (400, 170)),
            (Some("c"), 1, (290, 0), (310, 100)),
            (Some("d"), 1, (90, 200), (110, 300)),
        ]
    );
}

#[test]
fn outline_of_staircase() {
    let abs = Abstract {
        name: "abs".to_string(),
        outline: Outline { x: vec![h(3), h(2), h(1)], y: vec![v(1), v(2), v(4)] },
        top_layer: 0,
        ports: vec![],
    };
    let c = converter(lib(vec![], vec![]), stack());
    let e = c.convert_outline(&abs).unwrap();
    assert_eq!(e.purpose, LayerPurpose::Outline);
    assert_eq!(e.layer, LayerKey { index: 2 });
    let pts = poly(&e);
    assert_eq!(
        pts,
        vec![
            (0, 0),
            (300, 0),
            (300, 50),
            (200, 50),
            (200, 100),
            (100, 100),
            (100, 200),
            (0, 200),
        ]
    );
    // Rectilinear, the closing edge included
    for i in 0..pts.len() {
        let next = pts[(i + 1) % pts.len()];
        assert!(pts[i].0 == next.0 || pts[i].1 == next.1);
    }
    // The extents are the greatest coordinates
    assert_eq!(abs.outline().max(Dir::Horiz), h(3));
    assert_eq!(abs.outline().max(Dir::Vert), v(4));
}

#[test]
fn outline_without_coordinates() {
    let c = converter(lib(vec![], vec![]), stack());
    let empty = cell("empty", 0, Outline { x: vec![], y: vec![] });
    assert_eq!(poly(&c.convert_outline(&empty).unwrap()), vec![(0, 0), (0, 0)]);
    assert_eq!(c.convert_cell(&empty).unwrap().elems.len(), 1);
}

#[test]
fn distances() {
    let c = converter(lib(vec![], vec![]), stack());
    assert_eq!(c.convert_to_db_units(DbUnits(-7)), DbUnits(-7));
    assert_eq!(c.convert_to_db_units(h(3)), DbUnits(300));
    assert_eq!(c.convert_to_db_units(v(-3)), DbUnits(-150));
    // Additive
    assert_eq!(
        c.convert_to_db_units(h(5)).0,
        c.convert_to_db_units(h(2)).0 + c.convert_to_db_units(h(3)).0
    );
    let p = c.convert_xy(&Xy { x: h(2), y: v(3) });
    assert_eq!((p.x, p.y), (200, 150));
    let p = c.convert_xy(&Xy::new(DbUnits(8), DbUnits(9)).transpose());
    assert_eq!((p.x, p.y), (9, 8));
    assert_eq!(
        UnitSpeced::from(LayerPitches { layer: 1, num: 2 }),
        UnitSpeced::LayerPitches(LayerPitches { layer: 1, num: 2 })
    );
}

#[test]
fn track_spans_match_periods() {
    let c = converter(lib(vec![], vec![]), stack());
    assert_eq!(c.track_span(0, 0).unwrap(), (DbUnits(20), DbUnits(30)));
    assert_eq!(c.track_span(0, 5).unwrap(), (DbUnits(260), DbUnits(270)));
    assert_eq!(c.track_span(1, 3).unwrap(), (DbUnits(690), DbUnits(710)));
    for periodnum in 0..4usize {
        let p = c.stack.metals[0].to_layer_period(periodnum, DbUnits(7));
        assert_eq!(p.rails[0].start, DbUnits(100 * periodnum as isize));
        for k in 0..2usize {
            let (start, stop) = c.track_span(0, periodnum * 2 + k).unwrap();
            let t = &p.signals[k];
            assert_eq!(t.start, start);
            assert_eq!(t.start.0 + t.width.0, stop.0);
            assert_eq!(t.segments.len(), 1);
            assert_eq!((t.segments[0].start, t.segments[0].stop), (DbUnits(0), DbUnits(7)));
        }
    }
}

#[test]
fn error_helpers() {
    let c = converter(lib(vec![], vec![]), stack());
    assert!(matches!(c.err::<u8>("no"), Err(LayoutError::Export(s)) if s == "no"));
    assert!(matches!(c.unwrap(Some(3u8), "no"), Ok(3)));
    assert!(matches!(c.unwrap::<u8>(None, "no"), Err(LayoutError::Export(s)) if s == "no"));
}

#[test]
fn stack_error_is_handed_on() {
    let r = RawConverter::convert(lib(vec![], vec![]), failure("bad stack"));
    assert_eq!(message(r), "bad stack");
}

#[test]
fn missing_raw_layer() {
    let mut s = stack();
    s.metals[1].spec.raw = None;
    s.boundary_layer = None;
    let r = RawConverter::convert(lib(vec![], vec![]), Ok(s));
    assert_eq!(message(r), "Error exporting: no raw layer defined");
}

#[test]
fn missing_boundary_layer() {
    let mut s = stack();
    s.boundary_layer = None;
    let r = RawConverter::convert(lib(vec![], vec![]), Ok(s));
    assert_eq!(message(r), "Cannot Convert Abstract to Raw without Boundary Layer");
}

#[test]
fn layers_get_their_keys() {
    let (layers, keys) = RawConverter::convert_layers(&stack()).unwrap();
    assert_eq!(keys, vec![LayerKey { index: 0 }, LayerKey { index: 1 }]);
    assert_eq!(layers.layers[keys[0].index].layernum, 1);
    assert_eq!(layers.layers[keys[1].index].layernum, 2);
}

#[test]
fn staircase_cell_is_refused() {
    let c = cell("c", 1, Outline { x: vec![h(2), h(1)], y: vec![v(2), v(4)] });
    let r = RawConverter::convert(lib(vec![c], vec![]), Ok(stack()));
    assert_eq!(message(r), "Non-rectangular outline; conversions not supported (yet)");
}

#[test]
fn unresolved_instance_comes_before_bad_cut() {
    let mut c = cell("c", 1, rect(4, 2));
    c.instances.push(inst("i", CellRef::Name("x".to_string()), 0, 0));
    c.cuts.push(failure("bad cut"));
    c.assignments.push(failure("bad assignment"));
    let rc = converter(lib(vec![], vec![]), stack());
    assert_eq!(message(rc.temp_cell(&c)), "FIXME?");
    c.instances.clear();
    assert_eq!(message(rc.temp_cell(&c)), "bad cut");
    c.cuts.clear();
    assert_eq!(message(rc.temp_cell(&c)), "bad assignment");
    assert_eq!(message(rc.convert_cell(&c)), "bad assignment");
    c.assignments.clear();
    assert!(rc.temp_cell(&c).is_ok());
}

#[test]
fn first_failing_cell_decides() {
    let good = cell("good", 1, rect(4, 2));
    let mut bad = cell("bad", 1, rect(4, 2));
    bad.cuts.push(failure("first"));
    bad.cuts.push(failure("never"));
    let mut worse = cell("worse", 1, rect(4, 2));
    worse.cuts.push(failure("second"));
    let r = RawConverter::convert(lib(vec![good, bad, worse], vec![]), Ok(stack()));
    assert_eq!(message(r), "first");
}

#[test]
fn cut_beyond_the_wire() {
    let mut c = cell("c", 1, rect(4, 2));
    c.cuts.push(Ok(loc(0, 0, 398)));
    let rc = converter(lib(vec![], vec![]), stack());
    assert_eq!(message(rc.convert_cell(&c)), "Cut Error: not a contiguous wire segment");
    c.cuts[0] = Ok(loc(0, 0, 395));
    let r = rc.convert_cell(&c).unwrap();
    assert_eq!(rects(&r.elems)[1], (None, 0, (0, 20), (390, 30)));
}

#[test]
fn overlapping_instances_are_refused() {
    let sub = cell("sub", 1, rect(1, 2));
    let mut top = cell("top", 1, rect(4, 2));
    top.instances.push(inst("i0", CellRef::Cell(CellKey { index: 0 }), 1, 0));
    top.instances.push(inst("i1", CellRef::Cell(CellKey { index: 0 }), 1, 0));
    let r = RawConverter::convert(lib(vec![sub, top], vec![]), Ok(stack()));
    assert_eq!(message(r), "Cut Error: not a contiguous wire segment");
}

#[test]
fn odd_cut_size_is_halved_toward_zero() {
    let mut c = cell("c", 2, rect(2, 4));
    c.cuts.push(Ok(loc(1, 0, 100)));
    let rc = converter(lib(vec![], vec![]), stack());
    let r = rc.convert_cell(&c).unwrap();
    let on_upper: Vec<_> = rects(&r.elems).into_iter().filter(|e| e.1 == 1).collect();
    assert_eq!(
        on_upper,
        vec![(None, 1, (90, 0), (110, 96)), (None, 1, (90, 104), (110, 200))]
    );
}

#[test]
fn assignment_on_a_cut() {
    let rc = converter(lib(vec![], vec![]), stack());
    let mut c = cell("c", 2, rect(4, 4));
    c.cuts.push(Ok(loc(0, 0, 90)));
    c.assignments.push(assign("a", loc(0, 0, 90), loc(1, 0, 40)));
    assert_eq!(message(rc.convert_cell(&c)), "COULDNT FIND SEGMENT");
    c.cuts[0] = Ok(loc(1, 0, 40));
    assert_eq!(message(rc.convert_cell(&c)), "Internal error: invalid segment");
}

#[test]
fn assignment_without_via_layer() {
    let mut s = stack();
    s.vias[0].raw = None;
    let rc = converter(lib(vec![], vec![]), s);
    let mut c = cell("c", 2, rect(4, 4));
    assert!(rc.convert_cell(&c).is_ok());
    c.assignments.push(assign("a", loc(0, 0, 90), loc(1, 0, 40)));
    assert_eq!(message(rc.convert_cell(&c)), "Raw-Layout Layer Not Defined");
    // A wire that is not there is noticed first
    c.cuts.push(Ok(loc(0, 0, 90)));
    assert_eq!(message(rc.convert_cell(&c)), "COULDNT FIND SEGMENT");
}

#[test]
fn later_assignment_wins() {
    let rc = converter(lib(vec![], vec![]), stack());
    let mut c = cell("c", 2, rect(4, 4));
    c.assignments.push(assign("a", loc(0, 0, 90), loc(1, 0, 40)));
    c.assignments.push(assign("b", loc(0, 0, 90), loc(1, 0, 60)));
    let r = rc.convert_cell(&c).unwrap();
    let all = rects(&r.elems);
    assert_eq!(all[0], (None, 0, (88, 37), (92, 43)));
    assert_eq!(all[1], (None, 0, (88, 57), (92, 63)));
    assert_eq!(all[3], (Some("b"), 0, (0, 20), (400, 30)));
    assert_eq!(all[8], (Some("b"), 1, (90, 0), (110, 200)));
}

#[test]
fn cells_are_arranged_by_layer_and_period() {
    let rc = converter(lib(vec![], vec![]), stack());
    let mut c = cell("c", 2, rect(8, 8));
    c.cuts.push(Ok(loc(1, 2, 5)));
    c.cuts.push(Ok(loc(0, 3, 6)));
    c.cuts.push(Ok(loc(1, 0, 7)));
    c.assignments.push(assign("a", loc(0, 1, 10), loc(1, 2, 20)));
    c.assignments.push(assign("b", loc(0, 5, 30), loc(1, 0, 40)));
    let t = rc.temp_cell(&c).unwrap();
    assert_eq!(t.cuts, vec![vec![loc(0, 3, 6)], vec![loc(1, 2, 5), loc(1, 0, 7)]]);
    assert_eq!(t.bot_assns[0].len(), 2);
    assert_eq!(t.bot_assns[1].len(), 0);
    assert_eq!(t.top_assns[0].len(), 0);
    assert_eq!(t.top_assns[1].len(), 2);
    assert!(t.bot_assns[0][0] != t.bot_assns[0][1]);
    assert!(t.bot_assns[0][0] == t.top_assns[1][0]);

    let lower = rc.temp_cell_layer(&t, &rc.stack.metals[0]);
    assert_eq!((lower.nperiods, lower.span, lower.pitch), (4, DbUnits(800), DbUnits(100)));
    let upper = rc.temp_cell_layer(&t, &rc.stack.metals[1]);
    assert_eq!((upper.nperiods, upper.span, upper.pitch), (4, DbUnits(400), DbUnits(200)));

    // Every cut and assignment is in one period
    let counts = |l: &TempCellLayer| -> Vec<(usize, usize, usize)> {
        (0..4usize)
            .map(|n| {
                let p = rc.temp_cell_layer_period(l, n);
                (p.cuts.len(), p.bot_assns.len(), p.top_assns.len())
            })
            .collect()
    };
    assert_eq!(counts(&lower), vec![(0, 1, 0), (1, 0, 0), (0, 1, 0), (0, 0, 0)]);
    assert_eq!(counts(&upper), vec![(1, 0, 1), (0, 0, 0), (1, 0, 1), (0, 0, 0)]);
    let p = rc.temp_cell_layer_period(&upper, 2);
    assert_eq!(p.cuts, vec![loc(1, 2, 5)]);
    assert!(p.top_assns[0] == t.top_assns[1][0]);
    let p = rc.temp_cell_layer_period(&upper, 0);
    assert!(p.top_assns[0] == t.top_assns[1][1]);
    let p = rc.temp_cell_layer_period(&lower, 0);
    assert!(p.bot_assns[0] == t.bot_assns[0][0]);
    let p = rc.temp_cell_layer_period(&lower, 2);
    assert!(p.bot_assns[0] == t.bot_assns[0][1]);
}

#[test]
fn cuts_and_assignments_are_on_their_tracks() {
    let mut c = cell("top", 2, rect(4, 4));
    c.cuts.push(Ok(loc(0, 1, 200)));
    c.cuts.push(Ok(loc(0, 2, 100)));
    c.cuts.push(Ok(loc(1, 1, 100)));
    c.assignments.push(assign("a", loc(0, 3, 50), loc(1, 1, 150)));
    let rc = converter(lib(vec![], vec![]), stack());
    let r = rc.convert_cell(&c).unwrap();
    assert_eq!(
        rects(&r.elems),
        vec![
            // First period of the lower layer: tracks 0 and 1
            (Some("VSS"), 0, (0, 0), (400, 5)),
            (None, 0, (0, 20), (400, 30)),
            (None, 0, (0, 60), (195, 70)),
            (None, 0, (205, 60), (400, 70)),
            // Second period: tracks 2 and 3
            (None, 0, (48, 147), (52, 153)),
            (Some("VSS"), 0, (0, 100), (400, 105)),
            (None, 0, (0, 120), (95, 130)),
            (None, 0, (105, 120), (400, 130)),
            (Some("a"), 0, (0, 160), (400, 170)),
            // Upper layer: tracks 0 and 1
            (None, 1, (90, 0), (110, 200)),
            (None, 1, (290, 0), (310, 96)),
            (Some("a"), 1, (290, 104), (310, 200)),
        ]
    );
}

#[test]
fn three_signals_to_a_period() {
    let mut st = stack();
    st.metals[0].period.rails.clear();
    st.metals[0].period.signals = vec![track(0, 10, None), track(30, 10, None), track(60, 10, None)];
    let mut c = cell("top", 1, rect(1, 6));
    for n in 0..9usize {
        c.cuts.push(Ok(loc(0, n, 10 + 10 * n as isize)));
    }
    let rc = converter(lib(vec![], vec![]), st);
    let r = rc.convert_cell(&c).unwrap();
    // Each track is cut where its own cut is
    let mut expected = vec![];
    for n in 0..9isize {
        let (y, x) = (100 * (n / 3) + 30 * (n % 3), 10 + 10 * n);
        expected.push((None, 0, (0, y), (x - 5, y + 10)));
        expected.push((None, 0, (x + 5, y), (100, y + 10)));
    }
    assert_eq!(rects(&r.elems), expected);
}

#[test]
fn missing_wire_comes_before_via() {
    let mut c = cell("top", 2, rect(4, 4));
    c.cuts.push(Ok(loc(0, 0, 100)));
    // The via would be out of range, but there is no wire for it
    c.assignments.push(assign("a", loc(0, 0, 100), loc(1, 0, isize::MAX)));
    let mut rc = converter(lib(vec![], vec![]), stack());
    assert_eq!(message(rc.convert_cell(&c)), "COULDNT FIND SEGMENT");
    rc.layerkeys.clear();
    assert_eq!(message(rc.convert_cell(&c)), "COULDNT FIND SEGMENT");
}

#[test]
fn nets_on_either_side_of_a_cut() {
    let mut c = cell("top", 2, rect(4, 4));
    c.cuts.push(Ok(loc(0, 0, 200)));
    c.cuts.push(Ok(loc(1, 0, 100)));
    c.assignments.push(assign("a", loc(0, 0, 50), loc(1, 0, 20)));
    c.assignments.push(assign("b", loc(0, 0, 350), loc(1, 0, 150)));
    c.assignments.push(assign("a", loc(0, 0, 90), loc(1, 0, 40)));
    let rc = converter(lib(vec![], vec![]), stack());
    let r = rc.convert_cell(&c).unwrap();
    let assigned: Vec<_> = rects(&r.elems)
        .into_iter()
        .filter(|e| e.0 == Some("a") || e.0 == Some("b"))
        .collect();
    assert_eq!(
        assigned,
        vec![
            (Some("a"), 0, (0, 20), (195, 30)),
            (Some("b"), 0, (205, 20), (400, 30)),
            (Some("a"), 1, (90, 0), (110, 96)),
            (Some("b"), 1, (90, 104), (110, 200)),
        ]
    );
}

#[test]
fn region_of_length_one() {
    let mut st = stack();
    st.prim.pitches.x = DbUnits(1);
    let abs = Abstract {
        name: "abs".to_string(),
        outline: rect(1, 2),
        top_layer: 1,
        ports: vec![],
    };
    let rc = converter(lib(vec![], vec![abs]), st);
    let mut c = cell("c", 1, rect(4, 2));
    c.instances.push(inst("i", CellRef::Abstract(AbstractKey { index: 0 }), 2, 0));
    assert_eq!(
        rects(&rc.convert_cell(&c).unwrap().elems),
        vec![
            (Some("VSS"), 0, (0, 0), (2, 5)),
            (Some("VSS"), 0, (3, 0), (4, 5)),
            (None, 0, (0, 20), (2, 30)),
            (None, 0, (3, 20), (4, 30)),
            (None, 0, (0, 60), (2, 70)),
            (None, 0, (3, 60), (4, 70)),
        ]
    );
}

#[test]
fn periods_of_an_unaligned_instance() {
    let abs = Abstract {
        name: "abs".to_string(),
        outline: rect(1, 4),
        top_layer: 2,
        ports: vec![],
    };
    let rc = converter(lib(vec![], vec![abs]), stack());
    let mut c = cell("c", 1, rect(4, 8));
    c.instances.push(inst("i", CellRef::Abstract(AbstractKey { index: 0 }), 2, 3));
    let t = rc.temp_cell(&c).unwrap();
    // From 150 to 350 across periods of 100
    let hit: Vec<bool> = (0..5usize)
        .map(|n| rc.instance_intersects(&t.instances[0], &rc.stack.metals[0], n))
        .collect();
    assert_eq!(hit, vec![false, true, true, true, false]);
}

#[test]
fn via_of_a_vertical_lower_layer() {
    let mut c = cell("top", 2, rect(4, 4));
    c.assignments.push(assign("a", loc(1, 1, 40), loc(0, 1, 90)));
    let rc = converter(lib(vec![], vec![]), stack());
    let r = rc.convert_cell(&c).unwrap();
    let upper: Vec<_> = rects(&r.elems).into_iter().filter(|e| e.1 == 1).collect();
    assert_eq!(
        upper,
        vec![
            (None, 1, (90, 0), (110, 200)),
            (None, 1, (38, 87), (42, 93)),
            (Some("a"), 1, (290, 0), (310, 200)),
        ]
    );
    let assigned: Vec<_> = rects(&r.elems).into_iter().filter(|e| e.0 == Some("a")).collect();
    assert_eq!(assigned[0], (Some("a"), 0, (0, 60), (400, 70)));
}

#[test]
fn blockages_and_touching() {
    let abs = Abstract {
        name: "abs".to_string(),
        outline: rect(1, 4),
        top_layer: 2,
        ports: vec![],
    };
    let rc = converter(lib(vec![], vec![abs]), stack());
    let mut c = cell("c", 1, rect(4, 8));
    c.instances.push(inst("i", CellRef::Abstract(AbstractKey { index: 0 }), 2, 2));
    let t = rc.temp_cell(&c).unwrap();
    let l = rc.temp_cell_layer(&t, &rc.stack.metals[0]);
    // From 100 to 300 across periods of 100
    let hit: Vec<bool> =
        (0..4usize).map(|n| rc.instance_intersects(&t.instances[0], l.layer, n)).collect();
    assert_eq!(hit, vec![false, true, true, false]);
    assert!(rc.temp_cell_layer_period(&l, 0).blockages.is_empty());
    assert_eq!(rc.temp_cell_layer_period(&l, 1).blockages, vec![(h(2), h(3))]);
}

#[test]
fn unknown_assignment_key() {
    let rc = converter(lib(vec![], vec![]), stack());
    let mut c = cell("c", 2, rect(4, 4));
    c.assignments.push(assign("a", loc(0, 0, 90), loc(1, 0, 40)));
    let known = rc.temp_cell(&c).unwrap();
    let empty_cell = cell("e", 2, rect(4, 4));
    let empty = rc.temp_cell(&empty_cell).unwrap();
    let l = rc.temp_cell_layer(&empty, &rc.stack.metals[0]);
    let period = |bots, tops| TempPeriod {
        periodnum: 0,
        cell: &empty,
        layer: &l,
        blockages: vec![],
        cuts: vec![],
        top_assns: tops,
        bot_assns: bots,
    };
    let key = known.bot_assns[0][0];
    assert_eq!(
        message(rc.convert_cell_layer_period(&period(vec![key], vec![]))),
        "Internal error: invalid assignment"
    );
    assert_eq!(
        message(rc.convert_cell_layer_period(&period(vec![], vec![key]))),
        "Internal error: invalid assignment"
    );
    assert_eq!(
        message(rc.convert_cell_layer_period(&period(vec![AssignKey::default()], vec![]))),
        "Internal error: invalid assignment"
    );
    assert_eq!(rc.convert_cell_layer_period(&period(vec![], vec![])).unwrap().len(), 3);
}

#[test]
fn keys_are_compared_ordered_and_hashed() {
    let rc = converter(lib(vec![], vec![]), stack());
    let mut c = cell("c", 2, rect(4, 4));
    c.assignments.push(assign("a", loc(0, 0, 90), loc(1, 0, 40)));
    c.assignments.push(assign("b", loc(0, 1, 90), loc(1, 1, 40)));
    let t = rc.temp_cell(&c).unwrap();
    let (a, b) = (t.bot_assns[0][0], t.bot_assns[0][1]);
    assert_eq!(a, t.top_assns[1][0]);
    assert_ne!(a, b);
    assert!((a < b) != (b < a));
    let set: HashSet<AssignKey> = vec![a, b, a, AssignKey::default()].into_iter().collect();
    assert_eq!(set.len(), 3);
}

#[test]
fn stored_assignments_are_found_again() {
    let rc = converter(lib(vec![], vec![]), stack());
    let mut c = cell("c", 2, rect(8, 8));
    for (n, net) in ["a", "b", "c"].iter().enumerate() {
        c.assignments.push(assign(net, loc(0, 0, 10 + 100 * n as isize), loc(1, n, 40)));
    }
    let r = rc.convert_cell(&c).unwrap();
    let nets: Vec<Option<&str>> =
        rects(&r.elems).into_iter().filter(|e| e.1 == 1).map(|e| e.0).collect();
    assert_eq!(nets, vec![Some("a"), Some("b"), Some("c"), None]);
}

#[test]
fn vertical_tracks_are_transposed() {
    let rc = converter(lib(vec![], vec![]), stack());
    let horiz = rc.stack.metals[0].to_layer_period(1, DbUnits(50));
    let mut vert = rc.stack.metals[0].to_layer_period(1, DbUnits(50));
    vert.signals[0].dir = Dir::Vert;
    let a = rc.convert_track(&horiz.signals[0], &rc.stack.metals[0]).unwrap();
    let b = rc.convert_track(&vert.signals[0], &rc.stack.metals[0]).unwrap();
    assert_eq!(rects(&a), vec![(None, 0, (0, 120), (50, 130))]);
    assert_eq!(rects(&b), vec![(None, 0, (120, 0), (130, 50))]);
}

#[test]
fn converting_a_point_and_an_instance() {
    let rc = converter(lib(vec![], vec![]), stack());
    let p = rc.convert_point(DbUnits(3), DbUnits(-4));
    assert_eq!((p.x, p.y), (3, -4));
    let r = rc.convert_instance(&inst("i", CellRef::Name("n".to_string()), -2, 3)).unwrap();
    assert_eq!((r.p0.x, r.p0.y), (-200, 150));
    assert!(matches!(r.cell, CellRef::Name(s) if s == "n"));
}
