//! Whole-program runs: end-of-program handling, error positions, tool
//! aggregation, and the partition of totals over tool boundaries.

use gcode_timer::aggregator::run;
use gcode_timer::errors::GcodeError;
use gcode_timer::objects_def::Cnc;

fn cnc() -> Cnc {
    Cnc { speed_x: 100_000, speed_y: 100_000, speed_z: 100_000 }
}

fn fast_cnc() -> Cnc {
    Cnc { speed_x: 100_000_000, speed_y: 100_000_000, speed_z: 100_000_000 }
}

fn lines(ls: &[&str]) -> Vec<String> {
    ls.iter().map(|s| s.to_string()).collect()
}

#[test]
fn move_before_referential_fails() {
    let r = run(&lines(&["G21", "G1 X10 Y0 Z0 F600"]), cnc());
    assert_eq!(r.unwrap_err(), (1, GcodeError::MissingReferential));
}

#[test]
fn clamped_program_reports_floor_duration_and_one_warning() {
    let r = run(&lines(&["G21", "G90", "G1 X10 Y0 Z0 F600", "M30"]), cnc());
    let (tools, warnlog) = r.unwrap();
    assert_eq!(tools.len(), 1);
    assert_eq!(tools[0].tool_number, None);
    assert_eq!(tools[0].distance, 10_000);
    assert_eq!(tools[0].duration, 6_000);
    assert_eq!(warnlog.get_messages().len(), 1);
}

#[test]
fn full_circle_program() {
    let r = run(&lines(&["G21 G90 G2 X0 Y0 I5 J0 F3000", "M30"]), cnc());
    let (tools, _) = r.unwrap();
    assert_eq!(tools.len(), 1);
    assert_eq!(tools[0].distance, 31_415);
}

#[test]
fn malformed_line_fails_where_it_stands() {
    let r = run(&lines(&["G21", "XY10", "M30"]), cnc());
    assert_eq!(r.unwrap_err(), (1, GcodeError::SyntaxError));
}

#[test]
fn end_of_program_halts_before_later_lines() {
    // the malformed line after M30 is never read
    let r = run(&lines(&["G21", "M30", "XY10"]), cnc());
    assert!(r.is_ok());
}

#[test]
fn missing_end_of_program_is_an_error() {
    let r = run(&lines(&["G21", "G90"]), cnc());
    assert_eq!(r.unwrap_err(), (2, GcodeError::UnexpectedEndOfInput));
}

#[test]
fn comment_lines_are_skipped() {
    let r = run(&lines(&["(header)", "G21", "(set up)", "G90", "M30"]), cnc());
    assert!(r.is_ok());
}

#[test]
fn tool_changes_seal_accumulators() {
    let r = run(
        &lines(&[
            "G21",
            "G90",
            "T1",
            "G1 X10 F6000",
            "T2",
            "G1 X20 F6000",
            "M30",
        ]),
        fast_cnc(),
    );
    let (tools, _) = r.unwrap();
    assert_eq!(tools.len(), 3);
    assert_eq!(tools[0].tool_number, None);
    assert_eq!(tools[0].duration, 0);
    assert_eq!(tools[0].distance, 0);
    assert_eq!(tools[1].tool_number, Some(1));
    assert_eq!(tools[1].duration, 100);
    assert_eq!(tools[1].distance, 10_000);
    assert_eq!(tools[2].tool_number, Some(2));
    assert_eq!(tools[2].duration, 100);
    assert_eq!(tools[2].distance, 10_000);
}

#[test]
fn totals_partition_the_per_line_contributions() {
    // the same moves, once with tool boundaries and once without: the
    // summed totals agree
    let with_tools = run(
        &lines(&[
            "G21",
            "G90",
            "T1",
            "G1 X10 F6000",
            "T2",
            "G1 X20 F6000",
            "M30",
        ]),
        fast_cnc(),
    )
    .unwrap();
    let without_tools = run(
        &lines(&["G21", "G90", "G1 X10 F6000", "G1 X20 F6000", "M30"]),
        fast_cnc(),
    )
    .unwrap();
    let sum_d: i64 = with_tools.0.iter().map(|t| t.duration).sum();
    let sum_s: i64 = with_tools.0.iter().map(|t| t.distance).sum();
    let sum_d2: i64 = without_tools.0.iter().map(|t| t.duration).sum();
    let sum_s2: i64 = without_tools.0.iter().map(|t| t.distance).sum();
    assert_eq!(sum_d, sum_d2);
    assert_eq!(sum_s, sum_s2);
    assert_eq!(sum_d, 200);
    assert_eq!(sum_s, 20_000);
}
