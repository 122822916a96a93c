//! A verified interpreter core for a restricted numerical-control command
//! language: it consumes motion instructions line by line, tracks the modal
//! machine state, and computes the travel distance and execution time of each
//! move, aggregated per active tool.
//!
//! All physical quantities are held as scaled integers: lengths, speeds and
//! durations in thousandths (millimetres, millimetres per minute, seconds),
//! dimensionless ratios and angles in millionths.

pub mod aggregator;
pub mod calculator;
pub mod errors;
pub mod fixed;
pub mod gcode_lexer;
pub mod lineparser;
pub mod math_tools;
pub mod objects_def;
pub mod warnings;
