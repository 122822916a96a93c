//! Distance and duration: straight moves, the rapid floor and its clamp,
//! full-circle arcs, and each failure of the calculator.

use gcode_timer::errors::GcodeError;
use gcode_timer::lineparser::parse_line;
use gcode_timer::objects_def::{
    Cnc, Coord, GCode, Machine, ModalGroup, MoveTypes, Referential, Unit,
};
use gcode_timer::warnings::Warnlog;

fn cnc() -> Cnc {
    Cnc { speed_x: 100_000, speed_y: 100_000, speed_z: 100_000 }
}

fn stats_of(m: &mut Machine, w: &mut Warnlog, line: &str) -> Result<(i64, i64), GcodeError> {
    let codes = parse_line(line).unwrap().unwrap();
    let (mg, _) = m.line_depacker(codes).unwrap();
    mg.get_stats(w)
}

#[test]
fn flag_only_lines_cost_nothing() {
    let mut m = Machine::new(cnc());
    let mut w = Warnlog::new();
    assert_eq!(stats_of(&mut m, &mut w, "G21").unwrap(), (0, 0));
    assert_eq!(stats_of(&mut m, &mut w, "G90").unwrap(), (0, 0));
    assert_eq!(w.get_messages().len(), 0);
}

#[test]
fn linear_distance_is_the_euclidean_norm() {
    let mut m = Machine::new(cnc());
    let mut w = Warnlog::new();
    stats_of(&mut m, &mut w, "G21").unwrap();
    stats_of(&mut m, &mut w, "G90").unwrap();
    // a 3-4-5 triangle: distance exactly 5 mm
    let (_, d) = stats_of(&mut m, &mut w, "G1 X3 Y4 F6000").unwrap();
    assert_eq!(d, 5000);
}

#[test]
fn feed_clamps_to_rapid_floor_and_warns_once() {
    let mut m = Machine::new(cnc());
    let mut w = Warnlog::new();
    stats_of(&mut m, &mut w, "G21").unwrap();
    stats_of(&mut m, &mut w, "G90").unwrap();
    // 10 mm at F600 asks for 1.0 s; the floor at 100 mm/min is 6.0 s
    let (t, d) = stats_of(&mut m, &mut w, "G1 X10 Y0 Z0 F600").unwrap();
    assert_eq!(d, 10_000);
    assert_eq!(t, 6_000);
    assert_eq!(w.get_messages().len(), 1);
    // a second clamped move does not add a second message
    let (t2, _) = stats_of(&mut m, &mut w, "G1 X20 F600").unwrap();
    assert_eq!(t2, 6_000);
    assert_eq!(w.get_messages().len(), 1);
}

#[test]
fn unclamped_feed_move_uses_the_feed_estimate() {
    let mut m = Machine::new(cnc());
    let mut w = Warnlog::new();
    stats_of(&mut m, &mut w, "G21").unwrap();
    stats_of(&mut m, &mut w, "G90").unwrap();
    // 10 mm at F50: 12.0 s, above the 6.0 s floor
    let (t, d) = stats_of(&mut m, &mut w, "G1 X10 F50").unwrap();
    assert_eq!(d, 10_000);
    assert_eq!(t, 12_000);
    assert_eq!(w.get_messages().len(), 0);
}

#[test]
fn rapid_move_takes_exactly_the_floor() {
    let mut m = Machine::new(cnc());
    let mut w = Warnlog::new();
    stats_of(&mut m, &mut w, "G21").unwrap();
    stats_of(&mut m, &mut w, "G90").unwrap();
    // 10 mm at 100 mm/min capability: 6.0 s, no feed needed, no warning
    let (t, d) = stats_of(&mut m, &mut w, "G0 X10").unwrap();
    assert_eq!(d, 10_000);
    assert_eq!(t, 6_000);
    assert_eq!(w.get_messages().len(), 0);
}

#[test]
fn slowest_axis_sets_the_rapid_floor() {
    let mut m = Machine::new(Cnc { speed_x: 100_000, speed_y: 50_000, speed_z: 100_000 });
    let mut w = Warnlog::new();
    stats_of(&mut m, &mut w, "G21").unwrap();
    stats_of(&mut m, &mut w, "G90").unwrap();
    // x takes 6.0 s, y takes 12.0 s: the floor is the slower axis
    let (t, _) = stats_of(&mut m, &mut w, "G0 X10 Y10").unwrap();
    assert_eq!(t, 12_000);
}

#[test]
fn feed_move_without_feed_is_refused() {
    let mut m = Machine::new(cnc());
    let mut w = Warnlog::new();
    stats_of(&mut m, &mut w, "G21").unwrap();
    stats_of(&mut m, &mut w, "G90").unwrap();
    assert_eq!(
        stats_of(&mut m, &mut w, "G1 X10").unwrap_err(),
        GcodeError::MissingFeed(MoveTypes::G1)
    );
}

#[test]
fn coordinates_without_referential_are_refused() {
    let mut m = Machine::new(cnc());
    let mut w = Warnlog::new();
    stats_of(&mut m, &mut w, "G21").unwrap();
    assert_eq!(
        stats_of(&mut m, &mut w, "G1 X10 F600").unwrap_err(),
        GcodeError::MissingReferential
    );
}

#[test]
fn undefined_origin_is_a_defensive_error() {
    let mg = ModalGroup {
        move_type: Some(GCode::MT(MoveTypes::G1)),
        origin: Coord { x: None, y: Some(0), z: Some(0), i: None, j: None, k: None },
        dest: Some(Coord { x: Some(1000), y: None, z: None, i: None, j: None, k: None }),
        speed: Some(600_000),
        max_speed: (100_000, 100_000, 100_000),
        unit: Some(Unit::MM),
        reference: Some(Referential::Absolute),
    };
    let mut w = Warnlog::new();
    assert_eq!(mg.get_stats(&mut w).unwrap_err(), GcodeError::MissingOrigin('X'));
}

#[test]
fn arc_without_center_offset_is_invalid() {
    let mut m = Machine::new(cnc());
    let mut w = Warnlog::new();
    stats_of(&mut m, &mut w, "G21").unwrap();
    stats_of(&mut m, &mut w, "G90").unwrap();
    assert_eq!(stats_of(&mut m, &mut w, "G2 X10 F300").unwrap_err(), GcodeError::InvalidArc);
}

#[test]
fn full_circle_travels_the_circumference() {
    let mut m = Machine::new(cnc());
    let mut w = Warnlog::new();
    stats_of(&mut m, &mut w, "G21").unwrap();
    stats_of(&mut m, &mut w, "G90").unwrap();
    // centre 5 mm away, start equal to end: 2 * pi * 5 mm = 31.415 mm
    let (_, d) = stats_of(&mut m, &mut w, "G2 X0 Y0 I5 J0 F3000").unwrap();
    assert_eq!(d, 31_415);
}

#[test]
fn full_circle_counter_clockwise_matches() {
    let mut m = Machine::new(cnc());
    let mut w = Warnlog::new();
    stats_of(&mut m, &mut w, "G21").unwrap();
    stats_of(&mut m, &mut w, "G90").unwrap();
    let (_, d) = stats_of(&mut m, &mut w, "G3 X0 Y0 I5 J0 F3000").unwrap();
    assert_eq!(d, 31_415);
}

#[test]
fn quarter_circle_clockwise() {
    let mut m = Machine::new(cnc());
    let mut w = Warnlog::new();
    stats_of(&mut m, &mut w, "G21").unwrap();
    stats_of(&mut m, &mut w, "G90").unwrap();
    // from the origin to (5, 5) around the centre (5, 0): a clockwise
    // quarter turn, pi/2 * 5 mm, within the series' truncation noise
    let (_, d) = stats_of(&mut m, &mut w, "G2 X5 Y5 I5 J0 F3000").unwrap();
    assert!((7_850..=7_858).contains(&d), "quarter arc was {}", d);
}

#[test]
fn quarter_points_counter_clockwise_take_the_long_way() {
    let mut m = Machine::new(cnc());
    let mut w = Warnlog::new();
    stats_of(&mut m, &mut w, "G21").unwrap();
    stats_of(&mut m, &mut w, "G90").unwrap();
    // the same two points counter-clockwise sweep three quarters,
    // 3 * pi / 2 * 5 mm
    let (_, d) = stats_of(&mut m, &mut w, "G3 X5 Y5 I5 J0 F3000").unwrap();
    assert!((23_555..=23_566).contains(&d), "three-quarter arc was {}", d);
}

#[test]
fn incremental_and_absolute_agree_on_distance() {
    // the same physical move stated under both referentials
    let mut ma = Machine::new(cnc());
    let mut wa = Warnlog::new();
    stats_of(&mut ma, &mut wa, "G21").unwrap();
    stats_of(&mut ma, &mut wa, "G90").unwrap();
    stats_of(&mut ma, &mut wa, "G1 X7 Y2 F6000").unwrap();
    let (_, da) = stats_of(&mut ma, &mut wa, "G1 X10 Y6 F6000").unwrap();

    let mut mi = Machine::new(cnc());
    let mut wi = Warnlog::new();
    stats_of(&mut mi, &mut wi, "G21").unwrap();
    stats_of(&mut mi, &mut wi, "G91").unwrap();
    stats_of(&mut mi, &mut wi, "G1 X7 Y2 F6000").unwrap();
    let (_, di) = stats_of(&mut mi, &mut wi, "G1 X3 Y4 F6000").unwrap();

    assert_eq!(da, di);
    assert_eq!(di, 5000);
}
