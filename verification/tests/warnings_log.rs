//! The advisory log: one message per kind, however often it is raised.

use gcode_timer::warnings::{WarnType, Warnlog};

#[test]
fn new_log_is_empty() {
    let w = Warnlog::new();
    assert_eq!(w.get_messages().len(), 0);
}

#[test]
fn repeated_warnings_are_recorded_once() {
    let mut w = Warnlog::new();
    w.warn(WarnType::TooFast);
    assert_eq!(w.get_messages().len(), 1);
    w.warn(WarnType::TooFast);
    w.warn(WarnType::TooFast);
    assert_eq!(w.get_messages().len(), 1);
    assert_eq!(
        w.get_messages()[0],
        "Feed speed is higher than set machine's capabilities: duration results may be \
         imprecise. Moreover, it will probably damage the CNC."
    );
}
