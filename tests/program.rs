use gcode_mass::command::{Command, ErrorKind, Params, Positioning};
use gcode_mass::interpreter::{ArcCentre, Interpreter, Point, Segment};
use gcode_mass::program::{deposition, deposition_from, interpret, total_extrusion, ProgramError};

const MM: i64 = 1_000_000;

fn origin() -> Point {
    Point { x: 0, y: 0, z: 0 }
}

fn moves(dx: i64, dy: i64, dz: i64, de: i64) -> Command {
    Command::Linear(Params {
        x: Some(dx),
        y: Some(dy),
        z: Some(dz),
        e: Some(de),
        i: None,
        j: None,
        r: None,
    })
}

#[test]
fn no_deposit_is_refused() {
    let none = Err(ProgramError { line: 0, kind: ErrorKind::NoDepositedMaterial });
    assert_eq!(deposition(""), none);
    assert_eq!(deposition("G1 X10 Y10\nG0 X20 F3000\n"), none);
    assert_eq!(deposition("G1 X10 E-1\nG1 E2\n"), none);
    assert_eq!(deposition("; comment\nM104 S200\n"), none);
}

#[test]
fn single_straight_move() {
    let segs = deposition("G1 X10 E5\n").unwrap();
    assert_eq!(
        segs,
        vec![Segment::Line { start: origin(), end: Point { x: 10 * MM, y: 0, z: 0 }, extrusion: 5 * MM }]
    );
    assert_eq!(total_extrusion(&segs), 5 * MM as i128);
}

#[test]
fn full_circle_arc() {
    let segs = deposition("G0 X10 Y0\nG3 X10 Y0 I-5 J0 E3\n").unwrap();
    let start = Point { x: 10 * MM, y: 0, z: 0 };
    assert_eq!(
        segs,
        vec![Segment::Arc {
            start,
            end: start,
            centre: ArcCentre::At { x: 5 * MM, y: 0 },
            clockwise: false,
            full_turn: true,
            extrusion: 3 * MM,
        }]
    );
}

#[test]
fn radius_arc() {
    let segs = deposition("G2 X10 Y0 R5 E1\n").unwrap();
    assert_eq!(
        segs,
        vec![Segment::Arc {
            start: origin(),
            end: Point { x: 10 * MM, y: 0, z: 0 },
            centre: ArcCentre::Radius(5 * MM),
            clockwise: true,
            full_turn: false,
            extrusion: MM,
        }]
    );
}

#[test]
fn malformed_line_is_reported() {
    let r = deposition("G1 X1 E1\nG1 X12.5.3 E2\nG1 X3 E3\n");
    assert_eq!(r, Err(ProgramError { line: 2, kind: ErrorKind::MalformedParameter }));
}

#[test]
fn degenerate_arcs() {
    let degenerate = |line: usize| Err(ProgramError { line, kind: ErrorKind::DegenerateArc });
    assert_eq!(deposition("G2 X0 Y0 R5 E1"), degenerate(1));
    assert_eq!(deposition("G1 X1 E1\nG2 X10 Y0 R2 E2"), degenerate(2));
    assert_eq!(deposition("G2 X10 E1"), degenerate(1));
    assert_eq!(deposition("G2 X1 I0 J0 E1"), degenerate(1));
    assert_eq!(deposition("G2 X1 R0 E1"), degenerate(1));
}

#[test]
fn coordinate_out_of_range() {
    let r = deposition("G91\nG1 X900000000 E1\nG1 X900000000 E1\n");
    assert_eq!(r, Err(ProgramError { line: 3, kind: ErrorKind::OutOfRange }));
}

#[test]
fn retraction_and_priming_lay_nothing() {
    let segs = deposition("G1 X10 E5\nG1 E3\nG1 E5\nG1 X20 E6\n").unwrap();
    assert_eq!(segs.len(), 2);
    assert_eq!(
        segs[1],
        Segment::Line {
            start: Point { x: 10 * MM, y: 0, z: 0 },
            end: Point { x: 20 * MM, y: 0, z: 0 },
            extrusion: MM,
        }
    );
}

#[test]
fn relative_positioning() {
    let segs = interpret("G91\nG1 X1 Y1 E1\nG1 X1 Y1 E1\n", Interpreter::new()).unwrap();
    assert_eq!(segs.len(), 2);
    assert_eq!(
        segs[1],
        Segment::Line {
            start: Point { x: MM, y: MM, z: 0 },
            end: Point { x: 2 * MM, y: 2 * MM, z: 0 },
            extrusion: MM,
        }
    );
}

#[test]
fn independent_extrusion_mode() {
    let start = Interpreter::with_extrusion_positioning(Positioning::Absolute);
    let segs = interpret("G91\nG1 X1 E2\nG1 X1 E2\n", start).unwrap();
    // relative X, absolute E: the second move feeds nothing
    assert_eq!(segs.len(), 1);
    assert_eq!(
        segs[0],
        Segment::Line { start: origin(), end: Point { x: MM, y: 0, z: 0 }, extrusion: 2 * MM }
    );
}

#[test]
fn relative_round_trip() {
    let mut s = Interpreter::new();
    assert_eq!(s.step(&Command::SetPositioning(Positioning::Relative)), Ok(None));
    let before = s;
    let there = s.step(&moves(3 * MM, -4 * MM, MM / 2, 2 * MM)).unwrap();
    assert!(there.is_some());
    assert_eq!(s.step(&moves(-3 * MM, 4 * MM, -MM / 2, -2 * MM)), Ok(None));
    assert_eq!(s.position, before.position);
    assert_eq!(s.extrusion, before.extrusion);
}

#[test]
fn order_does_not_change_total() {
    let segs = deposition("G1 X10 E5\nG1 Y10 E7.5\nG2 X0 Y0 R8 E9.25\n").unwrap();
    let mut reversed = segs.clone();
    reversed.reverse();
    assert_eq!(total_extrusion(&segs), total_extrusion(&reversed));
    assert_eq!(total_extrusion(&segs), 9_250_000);
}

#[test]
fn crlf_lines() {
    let segs = deposition("G1 X1 E1\r\nG1 X2 E2\r\n").unwrap();
    assert_eq!(segs.len(), 2);
}

#[test]
fn earlier_malformed_word_fails_the_line() {
    let r = deposition("G1X1.2.3X1");
    assert_eq!(r, Err(ProgramError { line: 1, kind: ErrorKind::MalformedParameter }));
    let r = deposition("G1 X1 E1\nG90 Y1.2.3\n");
    assert_eq!(r, Err(ProgramError { line: 2, kind: ErrorKind::MalformedParameter }));
}

#[test]
fn relative_travel_pair_changes_nothing() {
    let head = "G1 X5 Y5 E1\n";
    let tail = "G1 X2 Y1 E1\nG2 X2 Y-2 I1 J0 E1\n";
    let with_pair = format!("{}G91\nG1 X3 Y-4 Z1.25\nG1 X-3 Y4 Z-1.25\n{}", head, tail);
    let without = format!("{}G91\n{}", head, tail);
    let a = deposition(&with_pair);
    assert!(a.is_ok());
    assert_eq!(a, deposition(&without));
}

#[test]
fn message_lines_change_nothing() {
    let plain = deposition("G1 X1 E1\nG1 X2 E2\n");
    assert!(plain.is_ok());
    assert_eq!(deposition("M117 Go\nG1 X1 E1\nM23 PART.GCO\nG1 X2 E2\nM117 Printing G-code\n"), plain);
}

#[test]
fn no_deposit_from_any_start() {
    let start = Interpreter::with_extrusion_positioning(Positioning::Relative);
    let none = Err(ProgramError { line: 0, kind: ErrorKind::NoDepositedMaterial });
    assert_eq!(deposition_from("G1 X10\nG1 X20 E-1\n", start), none);
    assert_eq!(deposition_from("", start), none);
    let segs = deposition_from("G1 X10 E1\nG1 X20 E1\n", start).unwrap();
    assert_eq!(segs.len(), 2);
    assert_eq!(total_extrusion(&segs), 2 * MM as i128);
}
