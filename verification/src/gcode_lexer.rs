//! The modal state transition: one line's codes consumed into the machine,
//! unit conversion applied, and the per-line snapshot produced.

use vstd::prelude::*;

use crate::errors::GcodeError;
use crate::fixed::{PARSE_LIMIT, VAL_LIMIT};
use crate::lineparser::{code_bounded, codes_bounded, Codes};
use crate::objects_def::{
    inch_axis, opt_in_limit, spec_coord_to_mm, spec_update, Coord, Flags, GCode, Machine,
    ModalGroup, MoveTypes, Referential, Status, Unit,
};

verus! {

/// Which recognised meaning a G value carries; everything outside the
/// closed vocabulary is ignored.
pub open spec fn spec_g_tokenizer(i: u8) -> GCode {
    if i == 0 {
        GCode::MT(MoveTypes::G0)
    } else if i == 1 {
        GCode::MT(MoveTypes::G1)
    } else if i == 2 {
        GCode::MT(MoveTypes::G2)
    } else if i == 3 {
        GCode::MT(MoveTypes::G3)
    } else if i == 20 {
        GCode::Flag(Flags::G20)
    } else if i == 21 {
        GCode::Flag(Flags::G21)
    } else if i == 90 {
        GCode::Flag(Flags::G90)
    } else if i == 91 {
        GCode::Flag(Flags::G91)
    } else {
        GCode::Dump
    }
}

/// What one recognised G code does to the machine: a motion mode becomes
/// the active move type, a flag sets units or referential, an ignored code
/// changes nothing.
pub open spec fn spec_process_gcode(m: Machine, gcode: GCode) -> Machine {
    match gcode {
        GCode::MT(_) => Machine { move_type: Some(gcode), ..m },
        GCode::Flag(f) => match f {
            Flags::G20 => Machine { unit: Some(Unit::Inch), ..m },
            Flags::G21 => Machine { unit: Some(Unit::MM), ..m },
            Flags::G90 => Machine { reference: Some(Referential::Absolute), ..m },
            Flags::G91 => Machine { reference: Some(Referential::Increment), ..m },
        },
        GCode::Dump => m,
    }
}

/// A pending feed value converted from inches, where one is present.
pub open spec fn spec_speed_to_mm(s: Option<i64>) -> Option<i64> {
    match s {
        Some(u) => Some(crate::objects_def::inch_to_mm(u as int) as i64),
        None => None,
    }
}

/// Unit resolution for one line: inch values are converted, millimetre
/// values pass through, and values with no unit ever declared are refused.
pub open spec fn spec_convert_units(unit: Option<Unit>, dest: Coord, speed: Option<i64>) -> Result<
    (Coord, Option<i64>),
    GcodeError,
> {
    match unit {
        Some(Unit::Inch) => Ok((spec_coord_to_mm(dest), spec_speed_to_mm(speed))),
        Some(Unit::MM) => Ok((dest, speed)),
        None => if !dest.spec_is_empty() || speed is Some {
            Err(GcodeError::MissingUnit)
        } else {
            Ok((dest, speed))
        },
    }
}

/// What one code does to the per-line state: G, M, T and F mutate the modal
/// fields or the pending feed; an axis letter fills its slot in the
/// destination, and refuses to fill it twice.
pub open spec fn spec_apply_code(
    m: Machine,
    dest: Coord,
    speed: Option<i64>,
    c: Codes,
) -> Result<(Machine, Coord, Option<i64>), GcodeError> {
    match c {
        Codes::G(i) => Ok((spec_process_gcode(m, spec_g_tokenizer(i)), dest, speed)),
        Codes::M(i) => Ok(
            (
                if i == 30 {
                    Machine { status: Status::EOP, ..m }
                } else {
                    m
                },
                dest,
                speed,
            ),
        ),
        Codes::T(i) => Ok((Machine { tool_number: Some(i), ..m }, dest, speed)),
        Codes::X(v) => if dest.x is Some {
            Err(GcodeError::DuplicateAxis('X'))
        } else {
            Ok((m, Coord { x: Some(v), ..dest }, speed))
        },
        Codes::Y(v) => if dest.y is Some {
            Err(GcodeError::DuplicateAxis('Y'))
        } else {
            Ok((m, Coord { y: Some(v), ..dest }, speed))
        },
        Codes::Z(v) => if dest.z is Some {
            Err(GcodeError::DuplicateAxis('Z'))
        } else {
            Ok((m, Coord { z: Some(v), ..dest }, speed))
        },
        Codes::I(v) => if dest.i is Some {
            Err(GcodeError::DuplicateAxis('I'))
        } else {
            Ok((m, Coord { i: Some(v), ..dest }, speed))
        },
        Codes::J(v) => if dest.j is Some {
            Err(GcodeError::DuplicateAxis('J'))
        } else {
            Ok((m, Coord { j: Some(v), ..dest }, speed))
        },
        Codes::K(v) => if dest.k is Some {
            Err(GcodeError::DuplicateAxis('K'))
        } else {
            Ok((m, Coord { k: Some(v), ..dest }, speed))
        },
        Codes::F(v) => Ok((m, dest, Some(v))),
    }
}

/// The fold of a line's codes over the per-line state, from position `i`.
pub open spec fn spec_depack_from(
    m: Machine,
    dest: Coord,
    speed: Option<i64>,
    line: Seq<Codes>,
    i: int,
) -> Result<(Machine, Coord, Option<i64>), GcodeError>
    decreases line.len() - i,
{
    if i < 0 || i >= line.len() {
        Ok((m, dest, speed))
    } else {
        match spec_apply_code(m, dest, speed, line[i]) {
            Err(e) => Err(e),
            Ok((m2, d2, s2)) => spec_depack_from(m2, d2, s2, line, i + 1),
        }
    }
}

/// What consuming one whole line does: the codes folded into the state,
/// units resolved, the feed committed, the snapshot taken with the pre-move
/// position as origin, and the position advanced by overlay.
pub open spec fn spec_line_depacker(m: Machine, line: Seq<Codes>) -> Result<
    (Machine, ModalGroup),
    GcodeError,
> {
    let start = Coord { x: None, y: None, z: None, i: None, j: None, k: None };
    match spec_depack_from(m, start, None, line, 0) {
        Err(e) => Err(e),
        Ok((m1, dest, speed)) => match spec_convert_units(m1.unit, dest, speed) {
            Err(e) => Err(e),
            Ok((dest2, speed2)) => {
                let m2 = if speed2 is Some {
                    Machine { speed: speed2, ..m1 }
                } else {
                    m1
                };
                let mg = ModalGroup {
                    move_type: m2.move_type,
                    origin: m2.pos,
                    dest: Some(dest2),
                    speed: m2.speed,
                    max_speed: m2.max_speed,
                    unit: m2.unit,
                    reference: m2.reference,
                };
                let m3 = Machine { pos: spec_update(m2.pos, dest2), ..m2 };
                Ok((m3, mg))
            },
        },
    }
}

/// Reads a G value into the closed vocabulary; every value is accepted,
/// the unrecognised ones as the ignored code.
pub fn g_tokenizer(i: u8) -> (r: Result<GCode, GcodeError>)
    ensures
        r == Ok::<GCode, GcodeError>(spec_g_tokenizer(i)),
{
    match i {
        0 => Ok(GCode::MT(MoveTypes::G0)),
        1 => Ok(GCode::MT(MoveTypes::G1)),
        2 => Ok(GCode::MT(MoveTypes::G2)),
        3 => Ok(GCode::MT(MoveTypes::G3)),
        20 => Ok(GCode::Flag(Flags::G20)),
        21 => Ok(GCode::Flag(Flags::G21)),
        90 => Ok(GCode::Flag(Flags::G90)),
        91 => Ok(GCode::Flag(Flags::G91)),
        _ => Ok(GCode::Dump),
    }
}

impl Machine {
    /// Applies one recognised G code to the modal fields.
    fn process_gcode(&mut self, gcode: GCode)
        ensures
            *final(self) == spec_process_gcode(*old(self), gcode),
    {
        match gcode {
            GCode::MT(_) => self.move_type = Some(gcode),
            GCode::Flag(f) => {
                match f {
                    Flags::G20 => self.unit = Some(Unit::Inch),
                    Flags::G21 => self.unit = Some(Unit::MM),
                    Flags::G90 => self.reference = Some(Referential::Absolute),
                    Flags::G91 => self.reference = Some(Referential::Increment),
                }
            },
            GCode::Dump => {},
        }
    }

    /// Resolves this line's destination and pending feed into millimetres
    /// under the active unit.
    fn convert_units(&self, dest: Coord, speed: Option<i64>) -> (r: Result<
        (Coord, Option<i64>),
        GcodeError,
    >)
        requires
            dest.in_limit(PARSE_LIMIT as int),
            opt_in_limit(speed, PARSE_LIMIT as int),
        ensures
            r == spec_convert_units(self.unit, dest, speed),
            r matches Ok(v) ==> v.0.in_limit(VAL_LIMIT as int) && opt_in_limit(
                v.1,
                VAL_LIMIT as int,
            ),
    {
        match self.unit {
            Some(Unit::Inch) => {
                let mut d = dest;
                d.to_mm();
                let s2 = match speed {
                    Some(u) => Some(inch_axis(u)),
                    None => None,
                };
                Ok((d, s2))
            },
            Some(Unit::MM) => Ok((dest, speed)),
            None => {
                if !dest.is_empty() || speed.is_some() {
                    Err(GcodeError::MissingUnit)
                } else {
                    Ok((dest, speed))
                }
            },
        }
    }

    /// Consumes one line's codes: mutates the modal fields, collects the
    /// destination, resolves units, returns the snapshot and the active
    /// tool number, and advances the position.  On an error the machine is
    /// left as it was.
    pub fn line_depacker(&mut self, line: Vec<Codes>) -> (r: Result<
        (ModalGroup, Option<u8>),
        GcodeError,
    >)
        requires
            old(self).wf(),
            codes_bounded(line@),
        ensures
            final(self).wf(),
            match spec_line_depacker(*old(self), line@) {
                Ok((m2, mg)) => {
                    &&& r matches Ok(v)
                    &&& v.0 == mg
                    &&& v.1 == m2.tool_number
                    &&& *final(self) == m2
                    &&& mg.wf()
                },
                Err(e) => r == Err::<(ModalGroup, Option<u8>), GcodeError>(e) && *final(self)
                    == *old(self),
            },
    {
        let ghost m0 = *self;
        let mut m = *self;
        let mut dest = Coord::new();
        let mut speed: Option<i64> = None;
        let n = line.len();
        let mut idx: usize = 0;
        while idx < n
            invariant
                0 <= idx <= n,
                n == line@.len(),
                codes_bounded(line@),
                m0 == *old(self),
                m0 == *self,
                m0.wf(),
                m.wf(),
                m.pos == m0.pos,
                spec_depack_from(
                    m0,
                    Coord { x: None, y: None, z: None, i: None, j: None, k: None },
                    None,
                    line@,
                    0,
                ) == spec_depack_from(m, dest, speed, line@, idx as int),
                dest.in_limit(PARSE_LIMIT as int),
                opt_in_limit(speed, PARSE_LIMIT as int),
            decreases n - idx,
        {
            proof {
                assert(code_bounded(line@[idx as int]));
            }
            let item = line[idx];
            match item {
                Codes::G(i) => {
                    let gcode = match g_tokenizer(i) {
                        Ok(g) => g,
                        Err(e) => {
                            return Err(e);
                        },
                    };
                    m.process_gcode(gcode);
                },
                Codes::M(i) => {
                    if i == 30 {
                        m.status = Status::EOP;
                    }
                },
                Codes::T(i) => {
                    m.tool_number = Some(i);
                },
                Codes::X(v) => {
                    if dest.x.is_some() {
                        return Err(GcodeError::DuplicateAxis('X'));
                    }
                    dest.x = Some(v);
                },
                Codes::Y(v) => {
                    if dest.y.is_some() {
                        return Err(GcodeError::DuplicateAxis('Y'));
                    }
                    dest.y = Some(v);
                },
                Codes::Z(v) => {
                    if dest.z.is_some() {
                        return Err(GcodeError::DuplicateAxis('Z'));
                    }
                    dest.z = Some(v);
                },
                Codes::I(v) => {
                    if dest.i.is_some() {
                        return Err(GcodeError::DuplicateAxis('I'));
                    }
                    dest.i = Some(v);
                },
                Codes::J(v) => {
                    if dest.j.is_some() {
                        return Err(GcodeError::DuplicateAxis('J'));
                    }
                    dest.j = Some(v);
                },
                Codes::K(v) => {
                    if dest.k.is_some() {
                        return Err(GcodeError::DuplicateAxis('K'));
                    }
                    dest.k = Some(v);
                },
                Codes::F(v) => {
                    speed = Some(v);
                },
            }
            idx = idx + 1;
        }

        let (dest2, speed2) = match m.convert_units(dest, speed) {
            Ok(t) => t,
            Err(e) => {
                return Err(e);
            },
        };
        if let Some(s) = speed2 {
            m.speed = Some(s);
        }
        let modgroup = ModalGroup {
            move_type: m.move_type,
            origin: m.pos,
            dest: Some(dest2),
            speed: m.speed,
            max_speed: m.max_speed,
            unit: m.unit,
            reference: m.reference,
        };
        let tool = m.tool_number;
        m.pos.update(&dest2);
        *self = m;
        Ok((modgroup, tool))
    }
}

/// At the specification level, folding bounded codes into a well-formed
/// machine keeps it well formed, leaves position, capability and feed
/// untouched, and collects a bounded destination and pending feed.
proof fn lemma_depack_from_wf(m: Machine, dest: Coord, speed: Option<i64>, line: Seq<Codes>, i: int)
    requires
        m.wf(),
        dest.in_limit(PARSE_LIMIT as int),
        opt_in_limit(speed, PARSE_LIMIT as int),
        codes_bounded(line),
    ensures
        spec_depack_from(m, dest, speed, line, i) matches Ok(v) ==> {
            &&& v.0.wf()
            &&& v.0.pos == m.pos
            &&& v.0.max_speed == m.max_speed
            &&& v.0.speed == m.speed
            &&& v.1.in_limit(PARSE_LIMIT as int)
            &&& opt_in_limit(v.2, PARSE_LIMIT as int)
        },
    decreases line.len() - i,
{
    if 0 <= i < line.len() {
        assert(code_bounded(line[i]));
        match spec_apply_code(m, dest, speed, line[i]) {
            Err(_) => {},
            Ok((m2, d2, s2)) => {
                lemma_depack_from_wf(m2, d2, s2, line, i + 1);
            },
        }
    }
}

/// At the specification level, unit resolution keeps resolved values within
/// the stored range.
proof fn lemma_convert_units_bounds(unit: Option<Unit>, dest: Coord, speed: Option<i64>)
    requires
        dest.in_limit(PARSE_LIMIT as int),
        opt_in_limit(speed, PARSE_LIMIT as int),
    ensures
        spec_convert_units(unit, dest, speed) matches Ok(v) ==> v.0.in_limit(VAL_LIMIT as int)
            && opt_in_limit(v.1, VAL_LIMIT as int),
{
    if unit == Some(Unit::Inch) {
        if dest.x is Some {
            crate::objects_def::lemma_inch_to_mm_bound(dest.x->0 as int);
        }
        if dest.y is Some {
            crate::objects_def::lemma_inch_to_mm_bound(dest.y->0 as int);
        }
        if dest.z is Some {
            crate::objects_def::lemma_inch_to_mm_bound(dest.z->0 as int);
        }
        if dest.i is Some {
            crate::objects_def::lemma_inch_to_mm_bound(dest.i->0 as int);
        }
        if dest.j is Some {
            crate::objects_def::lemma_inch_to_mm_bound(dest.j->0 as int);
        }
        if dest.k is Some {
            crate::objects_def::lemma_inch_to_mm_bound(dest.k->0 as int);
        }
        if speed is Some {
            crate::objects_def::lemma_inch_to_mm_bound(speed->0 as int);
        }
    }
}

/// At the specification level too, consuming a line of bounded codes keeps
/// the machine well formed and yields a well-formed snapshot.
pub proof fn lemma_line_depacker_wf(m: Machine, codes: Seq<Codes>)
    requires
        m.wf(),
        codes_bounded(codes),
    ensures
        spec_line_depacker(m, codes) matches Ok(v) ==> v.0.wf() && v.1.wf(),
{
    let start = Coord { x: None, y: None, z: None, i: None, j: None, k: None };
    lemma_depack_from_wf(m, start, None, codes, 0);
    match spec_depack_from(m, start, None, codes, 0) {
        Err(_) => {},
        Ok((m1, dest, speed)) => {
            lemma_convert_units_bounds(m1.unit, dest, speed);
        },
    }
}

} // verus!
