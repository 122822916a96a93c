//! The data model: the optional-per-axis coordinate record, the persistent
//! machine state, the per-line modal snapshot, the per-tool accumulator and
//! the small closed code vocabulary.

use vstd::prelude::*;

use crate::fixed::{div_tz, PARSE_LIMIT, VAL_LIMIT};

verus! {

/// A defined axis value stays within the given magnitude.
pub open spec fn opt_in_limit(o: Option<i64>, lim: int) -> bool {
    o matches Some(v) ==> -lim <= v <= lim
}

/// An axis-wise optional record: three positions (x, y, z) and three arc
/// centre offsets (i, j, k).  `None` means "not given on this line", not
/// zero.  Values are thousandths of a millimetre.
#[derive(Clone, Copy, Debug, PartialEq)]
pub struct Coord {
    pub x: Option<i64>,
    pub y: Option<i64>,
    pub z: Option<i64>,
    pub i: Option<i64>,
    pub j: Option<i64>,
    pub k: Option<i64>,
}

/// Conversion of one inch-valued axis into thousandths of a millimetre:
/// 25.4 times the value, truncated toward zero.
pub open spec fn inch_to_mm(v: int) -> int {
    div_tz(v * 254, 10)
}

/// One axis of `Coord::to_mm`.
pub open spec fn opt_inch_to_mm(o: Option<i64>) -> Option<i64> {
    match o {
        Some(v) => Some(inch_to_mm(v as int) as i64),
        None => None,
    }
}

/// The inch conversion keeps a parse-bounded value within the stored range.
pub proof fn lemma_inch_to_mm_bound(v: int)
    requires
        -PARSE_LIMIT <= v <= PARSE_LIMIT,
    ensures
        -VAL_LIMIT <= inch_to_mm(v) <= VAL_LIMIT,
{
    if v >= 0 {
        vstd::arithmetic::div_mod::lemma_div_pos_is_pos(v * 254, 10);
        vstd::arithmetic::div_mod::lemma_div_is_ordered(v * 254, PARSE_LIMIT as int * 254, 10);
    } else {
        vstd::arithmetic::div_mod::lemma_div_pos_is_pos((-v) * 254, 10);
        vstd::arithmetic::div_mod::lemma_div_is_ordered((-v) * 254, PARSE_LIMIT as int * 254, 10);
    }
}

/// A whole record converted from inches, axis by axis.
pub open spec fn spec_coord_to_mm(c: Coord) -> Coord {
    Coord {
        x: opt_inch_to_mm(c.x),
        y: opt_inch_to_mm(c.y),
        z: opt_inch_to_mm(c.z),
        i: opt_inch_to_mm(c.i),
        j: opt_inch_to_mm(c.j),
        k: opt_inch_to_mm(c.k),
    }
}

/// The overlay of `u` onto `c`: a defined positional axis of `u` replaces the
/// one of `c`; everything else, the offsets included, keeps the value of `c`.
pub open spec fn spec_update(c: Coord, u: Coord) -> Coord {
    Coord {
        x: if u.x is Some { u.x } else { c.x },
        y: if u.y is Some { u.y } else { c.y },
        z: if u.z is Some { u.z } else { c.z },
        ..c
    }
}

/// Axis-wise sum on the positional axes: an unspecified component counts as
/// zero, so an axis only the adder defines takes the adder's value; an axis
/// the adder leaves out is unchanged.
pub open spec fn spec_add(c: Coord, a: Coord) -> Coord {
    Coord {
        x: if a.x is Some { Some((opt0(c.x) + a.x->0) as i64) } else { c.x },
        y: if a.y is Some { Some((opt0(c.y) + a.y->0) as i64) } else { c.y },
        z: if a.z is Some { Some((opt0(c.z) + a.z->0) as i64) } else { c.z },
        ..c
    }
}

/// An unspecified component counts as zero in arithmetic.
pub open spec fn opt0(o: Option<i64>) -> int {
    match o {
        Some(v) => v as int,
        None => 0,
    }
}

impl Coord {
    /// Every defined axis stays within the given magnitude.
    pub open spec fn in_limit(self, lim: int) -> bool {
        &&& opt_in_limit(self.x, lim)
        &&& opt_in_limit(self.y, lim)
        &&& opt_in_limit(self.z, lim)
        &&& opt_in_limit(self.i, lim)
        &&& opt_in_limit(self.j, lim)
        &&& opt_in_limit(self.k, lim)
    }

    /// No axis is given.
    pub open spec fn spec_is_empty(self) -> bool {
        self.x is None && self.y is None && self.z is None && self.i is None && self.j is None
            && self.k is None
    }

    /// The record with every axis unspecified.
    pub fn new() -> (c: Coord)
        ensures
            c.spec_is_empty(),
            c == (Coord { x: None, y: None, z: None, i: None, j: None, k: None }),
    {
        Coord { x: None, y: None, z: None, i: None, j: None, k: None }
    }

    /// Overlays the defined positional axes of `updater` onto `self`,
    /// leaving undefined axes and the offsets untouched.
    pub fn update(&mut self, updater: &Coord)
        ensures
            *final(self) == spec_update(*old(self), *updater),
    {
        if let Some(_) = updater.x {
            self.x = updater.x;
        }
        if let Some(_) = updater.y {
            self.y = updater.y;
        }
        if let Some(_) = updater.z {
            self.z = updater.z;
        }
    }

    /// Adds the defined positional axes of `adder` onto `self`, an
    /// unspecified component counting as zero on either side.
    pub fn add(&mut self, adder: &Coord)
        requires
            old(self).in_limit(VAL_LIMIT as int),
            adder.in_limit(VAL_LIMIT as int),
        ensures
            *final(self) == spec_add(*old(self), *adder),
    {
        if let Some(ax) = adder.x {
            self.x = Some(self.x.unwrap_or(0) + ax);
        }
        if let Some(ay) = adder.y {
            self.y = Some(self.y.unwrap_or(0) + ay);
        }
        if let Some(az) = adder.z {
            self.z = Some(self.z.unwrap_or(0) + az);
        }
    }

    /// Whether no axis at all is given on this record.
    pub fn is_empty(&self) -> (r: bool)
        ensures
            r == self.spec_is_empty(),
    {
        match self {
            Coord { x: None, y: None, z: None, i: None, j: None, k: None } => true,
            _ => false,
        }
    }

    /// Converts every defined axis from inches to thousandths of a
    /// millimetre.
    pub fn to_mm(&mut self)
        requires
            old(self).in_limit(PARSE_LIMIT as int),
        ensures
            final(self).x == opt_inch_to_mm(old(self).x),
            final(self).y == opt_inch_to_mm(old(self).y),
            final(self).z == opt_inch_to_mm(old(self).z),
            final(self).i == opt_inch_to_mm(old(self).i),
            final(self).j == opt_inch_to_mm(old(self).j),
            final(self).k == opt_inch_to_mm(old(self).k),
            *final(self) == spec_coord_to_mm(*old(self)),
            final(self).in_limit(VAL_LIMIT as int),
    {
        if let Some(u) = self.x {
            self.x = Some(inch_axis(u));
        }
        if let Some(u) = self.y {
            self.y = Some(inch_axis(u));
        }
        if let Some(u) = self.z {
            self.z = Some(inch_axis(u));
        }
        if let Some(u) = self.i {
            self.i = Some(inch_axis(u));
        }
        if let Some(u) = self.j {
            self.j = Some(inch_axis(u));
        }
        if let Some(u) = self.k {
            self.k = Some(inch_axis(u));
        }
    }
}

/// One axis of the inch conversion, truncated toward zero as signed machine
/// division does.
pub fn inch_axis(v: i64) -> (r: i64)
    requires
        -PARSE_LIMIT <= v <= PARSE_LIMIT,
    ensures
        r == inch_to_mm(v as int),
        -VAL_LIMIT <= r <= VAL_LIMIT,
{
    if v >= 0 {
        (v * 254) / 10
    } else {
        -((-v) * 254 / 10)
    }
}

/// The motion modes: rapid traverse, linear feed, clockwise arc and
/// counter-clockwise arc.
#[derive(Clone, Copy, Debug, PartialEq, Eq, Structural)]
pub enum MoveTypes {
    G0,
    G1,
    G2,
    G3,
}

/// The modal flags: inch units, millimetre units, absolute referential,
/// incremental referential.
#[derive(Clone, Copy, Debug, PartialEq, Eq, Structural)]
pub enum Flags {
    G20,
    G21,
    G90,
    G91,
}

/// A recognised G code: a motion mode, a flag, or an ignored code.
#[derive(Clone, Copy, Debug, PartialEq, Eq, Structural)]
pub enum GCode {
    MT(MoveTypes),
    Flag(Flags),
    Dump,
}

/// The active unit system.
#[derive(Clone, Copy, Debug, PartialEq, Eq, Structural)]
pub enum Unit {
    MM,
    Inch,
}

/// Whether coordinates are absolute positions or increments from the current
/// position.
#[derive(Clone, Copy, Debug, PartialEq, Eq, Structural)]
pub enum Referential {
    Absolute,
    Increment,
}

/// Whether the run keeps processing lines or has seen the end-of-program
/// code.
#[derive(Clone, Copy, Debug, PartialEq, Eq, Structural)]
pub enum Status {
    Continue,
    EOP,
}

/// The per-axis maximum traverse speeds of the machine, in thousandths of a
/// millimetre per minute.
#[derive(Clone, Copy, Debug)]
pub struct Cnc {
    pub speed_x: i64,
    pub speed_y: i64,
    pub speed_z: i64,
}

impl Cnc {
    /// A usable configuration: every axis speed positive and within range.
    pub open spec fn wf(self) -> bool {
        &&& 1 <= self.speed_x <= VAL_LIMIT
        &&& 1 <= self.speed_y <= VAL_LIMIT
        &&& 1 <= self.speed_z <= VAL_LIMIT
    }
}

/// The persistent interpreter state, mutated line by line.
#[derive(Clone, Copy, Debug)]
pub struct Machine {
    pub move_type: Option<GCode>,
    pub pos: Coord,
    pub max_speed: (i64, i64, i64),
    pub speed: Option<i64>,
    pub unit: Option<Unit>,
    pub reference: Option<Referential>,
    pub tool_number: Option<u8>,
    pub status: Status,
}

impl Machine {
    /// The machine invariant: the tracked position always has x, y and z
    /// defined and bounded, never offsets; capability and feed values are in
    /// range.
    pub open spec fn wf(self) -> bool {
        &&& self.pos.x is Some
        &&& self.pos.y is Some
        &&& self.pos.z is Some
        &&& self.pos.i is None
        &&& self.pos.j is None
        &&& self.pos.k is None
        &&& self.pos.in_limit(VAL_LIMIT as int)
        &&& 1 <= self.max_speed.0 <= VAL_LIMIT
        &&& 1 <= self.max_speed.1 <= VAL_LIMIT
        &&& 1 <= self.max_speed.2 <= VAL_LIMIT
        &&& opt_in_limit(self.speed, VAL_LIMIT as int)
    }

    /// A fresh machine at the origin, with nothing modal set yet.
    pub fn new(config: Cnc) -> (m: Machine)
        requires
            config.wf(),
        ensures
            m.wf(),
            m.move_type is None,
            m.pos == (Coord {
                x: Some(0i64),
                y: Some(0i64),
                z: Some(0i64),
                i: None,
                j: None,
                k: None,
            }),
            m.max_speed == (config.speed_x, config.speed_y, config.speed_z),
            m.speed is None,
            m.unit is None,
            m.reference is None,
            m.tool_number is None,
            m.status == Status::Continue,
    {
        Machine {
            move_type: None,
            pos: Coord { x: Some(0), y: Some(0), z: Some(0), i: None, j: None, k: None },
            max_speed: (config.speed_x, config.speed_y, config.speed_z),
            speed: None,
            unit: None,
            reference: None,
            tool_number: None,
            status: Status::Continue,
        }
    }
}

/// The immutable per-line snapshot the calculator consumes: origin and
/// destination of the commanded motion together with the modal context that
/// was active when the line was read.
#[derive(Clone, Copy, Debug)]
pub struct ModalGroup {
    pub move_type: Option<GCode>,
    pub origin: Coord,
    pub dest: Option<Coord>,
    pub speed: Option<i64>,
    pub max_speed: (i64, i64, i64),
    pub unit: Option<Unit>,
    pub reference: Option<Referential>,
}

impl ModalGroup {
    /// Every value the snapshot holds is within the machine's ranges.
    pub open spec fn bounded(self) -> bool {
        &&& self.origin.in_limit(VAL_LIMIT as int)
        &&& (self.dest matches Some(d) ==> d.in_limit(VAL_LIMIT as int))
        &&& 1 <= self.max_speed.0 <= VAL_LIMIT
        &&& 1 <= self.max_speed.1 <= VAL_LIMIT
        &&& 1 <= self.max_speed.2 <= VAL_LIMIT
        &&& opt_in_limit(self.speed, VAL_LIMIT as int)
    }

    /// What a snapshot taken from a well-formed machine satisfies: bounded,
    /// with the origin fully defined.
    pub open spec fn wf(self) -> bool {
        &&& self.bounded()
        &&& self.origin.x is Some
        &&& self.origin.y is Some
        &&& self.origin.z is Some
    }
}

/// The running totals for one active tool number, in thousandths of a second
/// and of a millimetre.
#[derive(Clone, Copy, Debug, PartialEq)]
pub struct Tool {
    pub tool_number: Option<u8>,
    pub duration: i64,
    pub distance: i64,
}

impl Tool {
    /// A fresh accumulator for the given tool, totals at zero.
    pub fn new(tool_number: Option<u8>) -> (t: Tool)
        ensures
            t.tool_number == tool_number,
            t.duration == 0,
            t.distance == 0,
    {
        Tool { tool_number, duration: 0, distance: 0 }
    }

    /// Reopens the accumulator for a new tool, totals back at zero.
    pub fn reset(&mut self, tool: Option<u8>)
        ensures
            final(self).tool_number == tool,
            final(self).duration == 0,
            final(self).distance == 0,
    {
        self.tool_number = tool;
        self.duration = 0;
        self.distance = 0;
    }
}

/// Overlaying the same partial record twice is the same as overlaying it
/// once: `update` is idempotent in its updater.
pub proof fn lemma_update_idempotent(c: Coord, u: Coord)
    ensures
        spec_update(spec_update(c, u), u) == spec_update(c, u),
{
}

} // verus!
