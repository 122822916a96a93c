//! Modal state behaviour: the coordinate record's arithmetic, unit
//! conversion, and what consuming a line does to the machine.

use gcode_timer::errors::GcodeError;
use gcode_timer::gcode_lexer::g_tokenizer;
use gcode_timer::lineparser::parse_line;
use gcode_timer::objects_def::{Cnc, Coord, GCode, Machine, MoveTypes, Referential, Status, Unit};

fn cnc() -> Cnc {
    Cnc { speed_x: 100_000, speed_y: 100_000, speed_z: 100_000 }
}

fn depack(m: &mut Machine, line: &str) -> (gcode_timer::objects_def::ModalGroup, Option<u8>) {
    let codes = parse_line(line).unwrap().unwrap();
    m.line_depacker(codes).unwrap()
}

#[test]
fn new_machine_starts_at_origin() {
    let m = Machine::new(cnc());
    assert_eq!(m.pos.x, Some(0));
    assert_eq!(m.pos.y, Some(0));
    assert_eq!(m.pos.z, Some(0));
    assert_eq!(m.pos.i, None);
    assert!(m.move_type.is_none());
    assert!(m.speed.is_none());
    assert!(m.unit.is_none());
    assert!(m.reference.is_none());
    assert!(m.tool_number.is_none());
    assert!(matches!(m.status, Status::Continue));
}

#[test]
fn coord_update_overlays_defined_axes_only() {
    let mut c = Coord { x: Some(1), y: Some(2), z: None, i: None, j: None, k: None };
    let u = Coord { x: Some(5), y: None, z: Some(7), i: Some(9), j: None, k: None };
    c.update(&u);
    // x replaced, y kept, z filled; offsets of the target untouched.
    assert_eq!(c, Coord { x: Some(5), y: Some(2), z: Some(7), i: None, j: None, k: None });
}

#[test]
fn coord_update_twice_equals_once() {
    let base = Coord { x: Some(1), y: Some(2), z: None, i: None, j: None, k: None };
    let u = Coord { x: Some(5), y: None, z: Some(7), i: None, j: None, k: None };
    let mut once = base;
    once.update(&u);
    let mut twice = base;
    twice.update(&u);
    twice.update(&u);
    assert_eq!(once, twice);
}

#[test]
fn coord_add_treats_missing_components_as_zero() {
    let mut c = Coord { x: Some(1000), y: None, z: Some(3000), i: None, j: None, k: None };
    let a = Coord { x: Some(500), y: Some(500), z: None, i: None, j: None, k: None };
    c.add(&a);
    // x sums both sides, y takes the adder alone (0 + 500), z is not
    // commanded and stays; offsets are never touched
    assert_eq!(
        c,
        Coord { x: Some(1500), y: Some(500), z: Some(3000), i: None, j: None, k: None }
    );
}

#[test]
fn coord_is_empty() {
    assert!(Coord::new().is_empty());
    let c = Coord { x: None, y: None, z: None, i: Some(1), j: None, k: None };
    assert!(!c.is_empty());
}

#[test]
fn coord_to_mm_converts_every_defined_axis() {
    let mut c = Coord { x: Some(1000), y: Some(-1000), z: Some(500), i: Some(0), j: None, k: None };
    c.to_mm();
    assert_eq!(c.x, Some(25400));
    assert_eq!(c.y, Some(-25400));
    assert_eq!(c.z, Some(12700));
    assert_eq!(c.i, Some(0));
    assert_eq!(c.j, None);
}

#[test]
fn g_tokenizer_recognizes_the_closed_vocabulary() {
    assert_eq!(g_tokenizer(0).unwrap(), GCode::MT(MoveTypes::G0));
    assert_eq!(g_tokenizer(1).unwrap(), GCode::MT(MoveTypes::G1));
    assert_eq!(g_tokenizer(2).unwrap(), GCode::MT(MoveTypes::G2));
    assert_eq!(g_tokenizer(3).unwrap(), GCode::MT(MoveTypes::G3));
    assert_eq!(g_tokenizer(90).unwrap(), GCode::Flag(gcode_timer::objects_def::Flags::G90));
    assert_eq!(g_tokenizer(47).unwrap(), GCode::Dump);
}

#[test]
fn flags_set_modal_fields() {
    let mut m = Machine::new(cnc());
    depack(&mut m, "G21");
    assert!(matches!(m.unit, Some(Unit::MM)));
    depack(&mut m, "G20");
    assert!(matches!(m.unit, Some(Unit::Inch)));
    depack(&mut m, "G90");
    assert!(matches!(m.reference, Some(Referential::Absolute)));
    depack(&mut m, "G91");
    assert!(matches!(m.reference, Some(Referential::Increment)));
}

#[test]
fn tool_and_stop_codes() {
    let mut m = Machine::new(cnc());
    let (_, tn) = depack(&mut m, "T4");
    assert_eq!(tn, Some(4));
    assert!(matches!(m.status, Status::Continue));
    depack(&mut m, "M30");
    assert!(matches!(m.status, Status::EOP));
}

#[test]
fn unknown_codes_are_ignored() {
    let mut m = Machine::new(cnc());
    depack(&mut m, "G17 M8");
    assert!(m.move_type.is_none());
    assert!(m.unit.is_none());
}

#[test]
fn duplicate_axis_is_refused() {
    let mut m = Machine::new(cnc());
    depack(&mut m, "G21");
    let codes = parse_line("X1 X2").unwrap().unwrap();
    assert_eq!(m.line_depacker(codes).unwrap_err(), GcodeError::DuplicateAxis('X'));
    // the failed line left the machine as it was
    assert_eq!(m.pos.x, Some(0));
}

#[test]
fn coordinates_without_unit_are_refused() {
    let mut m = Machine::new(cnc());
    let codes = parse_line("X1").unwrap().unwrap();
    assert_eq!(m.line_depacker(codes).unwrap_err(), GcodeError::MissingUnit);
    let codes = parse_line("F600").unwrap().unwrap();
    assert_eq!(m.line_depacker(codes).unwrap_err(), GcodeError::MissingUnit);
}

#[test]
fn flag_only_line_without_unit_is_legal() {
    let mut m = Machine::new(cnc());
    let codes = parse_line("G90").unwrap().unwrap();
    assert!(m.line_depacker(codes).is_ok());
}

#[test]
fn inch_units_scale_destination_and_feed() {
    let mut m = Machine::new(cnc());
    depack(&mut m, "G20");
    depack(&mut m, "G90");
    let (mg, _) = depack(&mut m, "G1 X1 F10");
    assert_eq!(mg.dest.unwrap().x, Some(25400));
    assert_eq!(mg.speed, Some(254000));
    assert_eq!(m.pos.x, Some(25400));
}

#[test]
fn position_advances_by_overlay() {
    let mut m = Machine::new(cnc());
    depack(&mut m, "G21");
    depack(&mut m, "G90");
    let (mg, _) = depack(&mut m, "G1 X10 F600");
    assert_eq!(mg.origin.x, Some(0));
    assert_eq!(m.pos.x, Some(10000));
    assert_eq!(m.pos.y, Some(0));
    let (mg2, _) = depack(&mut m, "G1 Y5");
    assert_eq!(mg2.origin.x, Some(10000));
    assert_eq!(m.pos.x, Some(10000));
    assert_eq!(m.pos.y, Some(5000));
}

#[test]
fn codes_survive_roundtrip_into_machine() {
    let mut m = Machine::new(cnc());
    depack(&mut m, "G21");
    let (mg, tn) = depack(&mut m, "G1 X10 Y-2.5 T3 F600");
    assert_eq!(tn, Some(3));
    assert_eq!(mg.dest.unwrap().x, Some(10000));
    assert_eq!(mg.dest.unwrap().y, Some(-2500));
    assert_eq!(mg.speed, Some(600000));
    assert!(matches!(mg.move_type, Some(GCode::MT(MoveTypes::G1))));
}
