use gcode_mass::command::{parse_line, Command, ErrorKind, Params, Positioning};
use gcode_mass::number::{parse_decimal, DecimalError};

fn no_params() -> Params {
    Params { x: None, y: None, z: None, e: None, i: None, j: None, r: None }
}

#[test]
fn decimal_forms() {
    assert_eq!(parse_decimal(b"12.5"), Ok(12_500_000));
    assert_eq!(parse_decimal(b"-0.25"), Ok(-250_000));
    assert_eq!(parse_decimal(b"+3"), Ok(3_000_000));
    assert_eq!(parse_decimal(b".5"), Ok(500_000));
    assert_eq!(parse_decimal(b"5."), Ok(5_000_000));
    assert_eq!(parse_decimal(b"0"), Ok(0));
    assert_eq!(parse_decimal(b"1.1234567"), Ok(1_123_456));
    assert_eq!(parse_decimal(b"1000000000"), Ok(1_000_000_000_000_000));
}

#[test]
fn decimal_rejects() {
    assert_eq!(parse_decimal(b"12.5.3"), Err(DecimalError::Malformed));
    assert_eq!(parse_decimal(b""), Err(DecimalError::Malformed));
    assert_eq!(parse_decimal(b"+"), Err(DecimalError::Malformed));
    assert_eq!(parse_decimal(b"."), Err(DecimalError::Malformed));
    assert_eq!(parse_decimal(b"-."), Err(DecimalError::Malformed));
    assert_eq!(parse_decimal(b"1e5"), Err(DecimalError::Malformed));
    assert_eq!(parse_decimal(b"1000000000.000001"), Err(DecimalError::TooLarge));
    assert_eq!(parse_decimal(b"99999999999999999999999"), Err(DecimalError::TooLarge));
    assert_eq!(parse_decimal(b"-99999999999999999999999.5"), Err(DecimalError::TooLarge));
    assert_eq!(parse_decimal(b"99999999999999999999999.5x"), Err(DecimalError::Malformed));
}

#[test]
fn linear_move_with_comments() {
    let r = parse_line(b"g1 x10 Y-2.5 (skirt) e0.4 ; outer wall");
    let p = Params { x: Some(10_000_000), y: Some(-2_500_000), e: Some(400_000), ..no_params() };
    assert_eq!(r, Ok(Command::Linear(p)));
}

#[test]
fn words_without_spaces() {
    let r = parse_line(b"G0X1Y2Z3F1200");
    let p = Params { x: Some(1_000_000), y: Some(2_000_000), z: Some(3_000_000), ..no_params() };
    assert_eq!(r, Ok(Command::Linear(p)));
}

#[test]
fn arc_moves() {
    let r = parse_line(b"G2 X1 Y1 I1 J0 E0.1");
    let p = Params {
        x: Some(1_000_000),
        y: Some(1_000_000),
        e: Some(100_000),
        i: Some(1_000_000),
        j: Some(0),
        ..no_params()
    };
    assert_eq!(r, Ok(Command::Arc { params: p, clockwise: true }));
    let r = parse_line(b"G03 X2 R-1.5");
    let p = Params { x: Some(2_000_000), r: Some(-1_500_000), ..no_params() };
    assert_eq!(r, Ok(Command::Arc { params: p, clockwise: false }));
}

#[test]
fn positioning_codes() {
    assert_eq!(parse_line(b"G90"), Ok(Command::SetPositioning(Positioning::Absolute)));
    assert_eq!(parse_line(b" g91 "), Ok(Command::SetPositioning(Positioning::Relative)));
}

#[test]
fn other_lines_are_no_ops() {
    assert_eq!(parse_line(b""), Ok(Command::Unrecognized));
    assert_eq!(parse_line(b"   "), Ok(Command::Unrecognized));
    assert_eq!(parse_line(b"; only a comment G1 X1"), Ok(Command::Unrecognized));
    assert_eq!(parse_line(b"(G1 X1 E1)"), Ok(Command::Unrecognized));
    assert_eq!(parse_line(b"M104 S200"), Ok(Command::Unrecognized));
    assert_eq!(parse_line(b"G28"), Ok(Command::Unrecognized));
    assert_eq!(parse_line(b"%"), Ok(Command::Unrecognized));
}

#[test]
fn malformed_parameter() {
    assert_eq!(parse_line(b"G1 X12.5.3"), Err(ErrorKind::MalformedParameter));
    assert_eq!(parse_line(b"G1 X1 Fabc"), Err(ErrorKind::MalformedParameter));
    assert_eq!(parse_line(b"G1 E"), Err(ErrorKind::MalformedParameter));
}

#[test]
fn last_occurrence_counts() {
    let p = Params { x: Some(2_000_000), ..no_params() };
    assert_eq!(parse_line(b"G1 X1 X2"), Ok(Command::Linear(p)));
}

#[test]
fn every_word_of_a_letter_is_checked() {
    assert_eq!(parse_line(b"G1 X1.2.3 X1"), Err(ErrorKind::MalformedParameter));
    assert_eq!(parse_line(b"G1X1.2.3X1"), Err(ErrorKind::MalformedParameter));
    assert_eq!(parse_line(b"G2 X1 I1 Iq I2"), Err(ErrorKind::MalformedParameter));
}

#[test]
fn positioning_codes_check_parameters() {
    assert_eq!(parse_line(b"G90 X1.2.3"), Err(ErrorKind::MalformedParameter));
    assert_eq!(parse_line(b"G91 E--1"), Err(ErrorKind::MalformedParameter));
}

#[test]
fn number_beyond_range() {
    assert_eq!(parse_line(b"G1 X1000000001"), Err(ErrorKind::OutOfRange));
    assert_eq!(parse_line(b"G0 E-2000000000.5"), Err(ErrorKind::OutOfRange));
    assert_eq!(parse_line(b"G1 X1000000000"), Ok(Command::Linear(Params { x: Some(1_000_000_000_000_000), ..no_params() })));
    assert_eq!(parse_line(b"G99999999999 X1"), Ok(Command::Unrecognized));
}

#[test]
fn unsupported_codes_are_not_read() {
    assert_eq!(parse_line(b"M117 Printing G-code"), Ok(Command::Unrecognized));
    assert_eq!(parse_line(b"M117 Go"), Ok(Command::Unrecognized));
    assert_eq!(parse_line(b"M23 PART.GCO"), Ok(Command::Unrecognized));
    assert_eq!(parse_line(b"M104 X1.2.3"), Ok(Command::Unrecognized));
    assert_eq!(parse_line(b"G"), Ok(Command::Unrecognized));
    assert_eq!(parse_line(b"Gx X1.2.3"), Ok(Command::Unrecognized));
    assert_eq!(parse_line(b"X1 G1 E1"), Ok(Command::Unrecognized));
}
