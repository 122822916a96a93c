//! The modal group calculator: per-line travel distance and duration for
//! linear and circular moves, with the rapid-traverse floor and the
//! too-fast advisory.

use vstd::prelude::*;

use crate::errors::GcodeError;
use crate::fixed::{
    div_pos, div_tz, div_tz_i128, iabs, isqrt_u128, mul_wide, mul_wide_128, sq, sqrt_floor,
    spec_acos_fp, DIST_CAP, DUR_CAP, FP, PI_FP, TWO_PI_FP, VAL_LIMIT, VEC_LIMIT,
};
use crate::math_tools::{cross_q, dot, norm_sq, spec_rad_cd, spec_rad_cp, spec_rad_dz};
use crate::objects_def::{Coord, GCode, ModalGroup, MoveTypes, Referential};
use crate::warnings::{spec_warn_types, WarnType, Warnlog};

verus! {

/// Which circular direction a move commands.
enum Direction {
    CW,
    CCW,
}

/// The motion mode a snapshot carries, if its move type is one.
pub open spec fn mt_of(mg: ModalGroup) -> Option<MoveTypes> {
    match mg.move_type {
        Some(GCode::MT(mt)) => Some(mt),
        _ => None,
    }
}

/// The per-axis displacement of a line: an unspecified destination axis
/// commands none; a specified one needs the origin axis and the referential
/// to resolve.
pub open spec fn spec_axis_delta(
    d: Option<i64>,
    o: Option<i64>,
    rf: Option<Referential>,
    ax: char,
) -> Result<int, GcodeError> {
    match d {
        None => Ok(0),
        Some(v) => match o {
            None => Err(GcodeError::MissingOrigin(ax)),
            Some(ov) => match rf {
                Some(Referential::Absolute) => Ok(v - ov),
                Some(Referential::Increment) => Ok(v as int),
                None => Err(GcodeError::MissingReferential),
            },
        },
    }
}

/// The three axis displacements of a line, x resolved first, then y, then z.
pub open spec fn spec_deltas(mg: ModalGroup) -> Result<(int, int, int), GcodeError> {
    match mg.dest {
        None => Ok((0, 0, 0)),
        Some(d) => match spec_axis_delta(d.x, mg.origin.x, mg.reference, 'X') {
            Err(e) => Err(e),
            Ok(dx) => match spec_axis_delta(d.y, mg.origin.y, mg.reference, 'Y') {
                Err(e) => Err(e),
                Ok(dy) => match spec_axis_delta(d.z, mg.origin.z, mg.reference, 'Z') {
                    Err(e) => Err(e),
                    Ok(dz) => Ok((dx, dy, dz)),
                },
            },
        },
    }
}

/// The travel distance of a rapid or linear move: the Euclidean norm of the
/// three axis displacements, rounded down to the unit.
pub open spec fn spec_dist_line(mg: ModalGroup) -> Result<int, GcodeError> {
    match spec_deltas(mg) {
        Err(e) => Err(e),
        Ok((dx, dy, dz)) => Ok(sqrt_floor(sq(dx) + sq(dy) + sq(dz))),
    }
}

/// The rapid-traverse floor: the slowest axis' repositioning time at full
/// capability, in thousandths of a second.
pub open spec fn spec_rapid_floor(mg: ModalGroup) -> Result<int, GcodeError> {
    match spec_deltas(mg) {
        Err(e) => Err(e),
        Ok((dx, dy, dz)) => {
            let tx = iabs(dx) * 60000 / (mg.max_speed.0 as int);
            let ty = iabs(dy) * 60000 / (mg.max_speed.1 as int);
            let tz = iabs(dz) * 60000 / (mg.max_speed.2 as int);
            let m = if tx >= ty {
                tx
            } else {
                ty
            };
            Ok(
                if m >= tz {
                    m
                } else {
                    tz
                },
            )
        },
    }
}

/// A ratio clamped into the representable cosine range: rounding the two
/// norms down can push the quotient just past one in magnitude.
pub open spec fn clamp_fp(t: int) -> int {
    if t > FP {
        FP as int
    } else if t < -FP {
        -(FP as int)
    } else {
        t
    }
}

/// The raw cosine ratio between the two radius vectors: their dot product
/// in millionth scale over the product of their rounded norms, truncated
/// toward zero.
pub open spec fn spec_arc_ratio(cp: Coord, cd: Coord) -> int {
    div_tz(dot(cp, cd) * (FP as int), sqrt_floor(norm_sq(cp)) * sqrt_floor(norm_sq(cd)))
}

/// The swept arc angle: the arccosine of the clamped ratio, flipped to the
/// long way round when the combined cross quantity says the rotation runs
/// against the commanded direction, and a resulting zero read as a full
/// circle.
pub open spec fn spec_arc_theta(cp: Coord, cd: Coord, cw: bool) -> int {
    let t0 = spec_acos_fp(clamp_fp(spec_arc_ratio(cp, cd)));
    let flip = if cw {
        cross_q(cp, cd) >= 0
    } else {
        cross_q(cp, cd) < 0
    };
    let th = if flip {
        TWO_PI_FP - t0
    } else {
        t0
    };
    if th == 0 {
        TWO_PI_FP as int
    } else {
        th
    }
}

/// The travel distance of a circular move: radius times swept angle in the
/// working plane, combined with the z displacement by Pythagoras.  A radius
/// vector of zero length is a degenerate arc.
pub open spec fn spec_dist_arc(mg: ModalGroup, cw: bool) -> Result<int, GcodeError> {
    match mg.dest {
        None => Ok(0),
        Some(d) => match mg.reference {
            None => Err(GcodeError::MissingReferential),
            Some(rf) => {
                if mg.origin.x is None {
                    Err(GcodeError::MissingOrigin('X'))
                } else if mg.origin.y is None {
                    Err(GcodeError::MissingOrigin('Y'))
                } else if mg.origin.z is None {
                    Err(GcodeError::MissingOrigin('Z'))
                } else {
                    let cp = spec_rad_cp(d);
                    let cd = spec_rad_cd(mg.origin, d, rf);
                    let dz = spec_rad_dz(mg.origin, d, rf);
                    let ncp = sqrt_floor(norm_sq(cp));
                    let ncd = sqrt_floor(norm_sq(cd));
                    if ncp * ncd == 0 {
                        Err(GcodeError::InvalidArc)
                    } else {
                        let radius = (ncp + ncd) / 2;
                        let theta = spec_arc_theta(cp, cd, cw);
                        let planar = radius * theta / (FP as int);
                        Ok(sqrt_floor(sq(planar) + sq(dz)))
                    }
                }
            },
        },
    }
}

/// The travel distance of a line: zero when nothing is commanded or no
/// motion mode is active, else by the active mode.
pub open spec fn spec_distance(mg: ModalGroup) -> Result<int, GcodeError> {
    let empty = match mg.dest {
        None => true,
        Some(d) => d.spec_is_empty(),
    };
    if empty {
        Ok(0)
    } else {
        match mt_of(mg) {
            None => Ok(0),
            Some(MoveTypes::G0) => spec_dist_line(mg),
            Some(MoveTypes::G1) => spec_dist_line(mg),
            Some(MoveTypes::G2) => spec_dist_arc(mg, true),
            Some(MoveTypes::G3) => spec_dist_arc(mg, false),
        }
    }
}

/// The duration a feed rate asks for: distance over feed, in thousandths of
/// a second, truncated toward zero; unbounded (capped) for a zero feed.
pub open spec fn spec_candidate(dist: int, s: int) -> int {
    if s > 0 {
        dist * 60000 / s
    } else if s < 0 {
        -(dist * 60000 / (-s))
    } else {
        DUR_CAP as int
    }
}

/// The duration of a line, and whether the too-fast advisory fires: rapid
/// moves take exactly the rapid floor; feed moves take the feed-driven
/// estimate, raised to the rapid floor (with the advisory) when the feed
/// asks for more than the machine can do.
pub open spec fn spec_duration(mg: ModalGroup, dist: int) -> Result<(int, bool), GcodeError> {
    match mt_of(mg) {
        None => Ok((0, false)),
        Some(mt) => match spec_rapid_floor(mg) {
            Err(e) => Err(e),
            Ok(floor) => match mt {
                MoveTypes::G0 => Ok((floor, false)),
                _ => match mg.speed {
                    None => Err(GcodeError::MissingFeed(mt)),
                    Some(s) => {
                        let cand = spec_candidate(dist, s as int);
                        if cand < floor {
                            Ok((floor, true))
                        } else {
                            Ok((cand, false))
                        }
                    },
                },
            },
        },
    }
}

/// Distance and duration of a line together, with the advisory flag.
pub open spec fn spec_stats(mg: ModalGroup) -> Result<(int, int, bool), GcodeError> {
    match spec_distance(mg) {
        Err(e) => Err(e),
        Ok(d) => match spec_duration(mg, d) {
            Err(e) => Err(e),
            Ok((t, w)) => Ok((t, d, w)),
        },
    }
}

impl ModalGroup {
    /// Resolves the three axis displacements of this line.
    fn get_deltas(&self) -> (r: Result<(i64, i64, i64), GcodeError>)
        requires
            self.bounded(),
        ensures
            match spec_deltas(*self) {
                Ok((dx, dy, dz)) => {
                    &&& r matches Ok(v)
                    &&& v.0 == dx
                    &&& v.1 == dy
                    &&& v.2 == dz
                    &&& iabs(dx) <= 2 * VAL_LIMIT
                    &&& iabs(dy) <= 2 * VAL_LIMIT
                    &&& iabs(dz) <= 2 * VAL_LIMIT
                },
                Err(e) => r == Err::<(i64, i64, i64), GcodeError>(e),
            },
    {
        let dest = match self.dest {
            Some(d) => d,
            None => {
                return Ok((0, 0, 0));
            },
        };
        let delta_x = match dest.x {
            Some(x) => match self.origin.x {
                Some(ox) => match self.reference {
                    Some(Referential::Absolute) => x - ox,
                    Some(Referential::Increment) => x,
                    None => {
                        return Err(GcodeError::MissingReferential);
                    },
                },
                None => {
                    return Err(GcodeError::MissingOrigin('X'));
                },
            },
            None => 0,
        };
        let delta_y = match dest.y {
            Some(y) => match self.origin.y {
                Some(oy) => match self.reference {
                    Some(Referential::Absolute) => y - oy,
                    Some(Referential::Increment) => y,
                    None => {
                        return Err(GcodeError::MissingReferential);
                    },
                },
                None => {
                    return Err(GcodeError::MissingOrigin('Y'));
                },
            },
            None => 0,
        };
        let delta_z = match dest.z {
            Some(z) => match self.origin.z {
                Some(oz) => match self.reference {
                    Some(Referential::Absolute) => z - oz,
                    Some(Referential::Increment) => z,
                    None => {
                        return Err(GcodeError::MissingReferential);
                    },
                },
                None => {
                    return Err(GcodeError::MissingOrigin('Z'));
                },
            },
            None => 0,
        };
        Ok((delta_x, delta_y, delta_z))
    }

    /// The distance of a rapid or linear move.
    fn get_dist_line(&self) -> (r: Result<i64, GcodeError>)
        requires
            self.bounded(),
        ensures
            match spec_dist_line(*self) {
                Ok(d) => r matches Ok(v) && v == d && 0 <= d <= DIST_CAP,
                Err(e) => r == Err::<i64, GcodeError>(e),
            },
    {
        let (delta_x, delta_y, delta_z) = match self.get_deltas() {
            Ok(d) => d,
            Err(e) => {
                return Err(e);
            },
        };
        let sx = mul_wide(delta_x, delta_x);
        let sy = mul_wide(delta_y, delta_y);
        let sz = mul_wide(delta_z, delta_z);
        proof {
            crate::math_tools::lemma_mul_limit(delta_x as int, delta_x as int, 2 * VAL_LIMIT);
            crate::math_tools::lemma_mul_limit(delta_y as int, delta_y as int, 2 * VAL_LIMIT);
            crate::math_tools::lemma_mul_limit(delta_z as int, delta_z as int, 2 * VAL_LIMIT);
            assert(sx >= 0) by (nonlinear_arith)
                requires
                    sx == (delta_x as int) * (delta_x as int),
            ;
            assert(sy >= 0) by (nonlinear_arith)
                requires
                    sy == (delta_y as int) * (delta_y as int),
            ;
            assert(sz >= 0) by (nonlinear_arith)
                requires
                    sz == (delta_z as int) * (delta_z as int),
            ;
        }
        let s = sx + sy + sz;
        let d = isqrt_u128(s as u128);
        proof {
            assert(d as int <= 1_000_000_000) by (nonlinear_arith)
                requires
                    (d as int) * (d as int) <= s as int,
                    s as int <= 3 * (2 * VAL_LIMIT as int) * (2 * VAL_LIMIT as int),
                    0 <= d as int,
            ;
        }
        Ok(d as i64)
    }

    /// The rapid-traverse floor of this line's displacements.
    fn get_durat_g0(&self) -> (r: Result<i64, GcodeError>)
        requires
            self.bounded(),
        ensures
            match spec_rapid_floor(*self) {
                Ok(t) => r matches Ok(v) && v == t && 0 <= t <= 2 * VAL_LIMIT * 60000,
                Err(e) => r == Err::<i64, GcodeError>(e),
            },
    {
        let (delta_x, delta_y, delta_z) = match self.get_deltas() {
            Ok(d) => d,
            Err(e) => {
                return Err(e);
            },
        };
        let (ms_x, ms_y, ms_z) = self.max_speed;
        let ax = if delta_x >= 0 {
            delta_x
        } else {
            -delta_x
        };
        let ay = if delta_y >= 0 {
            delta_y
        } else {
            -delta_y
        };
        let az = if delta_z >= 0 {
            delta_z
        } else {
            -delta_z
        };
        let dura_x = div_pos((ax as i128) * 60000, ms_x as i128) as i64;
        let dura_y = div_pos((ay as i128) * 60000, ms_y as i128) as i64;
        let dura_z = div_pos((az as i128) * 60000, ms_z as i128) as i64;
        let m = if dura_x >= dura_y {
            dura_x
        } else {
            dura_y
        };
        let max_duration = if m >= dura_z {
            m
        } else {
            dura_z
        };
        Ok(max_duration)
    }

    /// The distance of a circular move in the commanded direction.
    fn get_dist_arc(&self, dir: Direction) -> (r: Result<i64, GcodeError>)
        requires
            self.bounded(),
        ensures
            match spec_dist_arc(*self, dir is CW) {
                Ok(d) => r matches Ok(v) && v == d && 0 <= d <= DIST_CAP,
                Err(e) => r == Err::<i64, GcodeError>(e),
            },
    {
        let dest = match self.dest {
            Some(d) => d,
            None => {
                return Ok(0);
            },
        };
        let reference = match self.reference {
            Some(r) => r,
            None => {
                return Err(GcodeError::MissingReferential);
            },
        };
        let (cp, cd, dz) = match self.origin.to_rad_vec(&dest, &reference) {
            Ok(t) => t,
            Err(e) => {
                return Err(e);
            },
        };
        assert(cp.in_limit(VEC_LIMIT as int));
        assert(cd.in_limit(VEC_LIMIT as int));
        assert(iabs(dz as int) <= 2 * VAL_LIMIT);

        let n_cp = cp.norm();
        let n_cd = cd.norm();
        let den = mul_wide(n_cp, n_cd);
        proof {
            assert(den >= 0) by (nonlinear_arith)
                requires
                    den == (n_cp as int) * (n_cd as int),
                    n_cp >= 0,
                    n_cd >= 0,
            ;
        }
        if den == 0 {
            return Err(GcodeError::InvalidArc);
        }
        let num = cp.scalar_product(&cd);
        let t_raw = div_tz_i128(mul_wide(num, FP), den);
        let t = if t_raw > FP as i128 {
            FP as i128
        } else if t_raw < -(FP as i128) {
            -(FP as i128)
        } else {
            t_raw
        };
        let theta0 = crate::fixed::acos_fp(t);
        let cross = cp.cross_product(&cd);
        let flip = match dir {
            Direction::CW => cross >= 0,
            Direction::CCW => cross < 0,
        };
        let mut theta = if flip {
            TWO_PI_FP - theta0
        } else {
            theta0
        };
        if theta == 0 {
            theta = TWO_PI_FP;
        }

        let radius = (n_cp + n_cd) / 2;
        let prod = mul_wide(radius, theta);
        proof {
            assert(0 <= prod <= 2_000_000_000 * (TWO_PI_FP as int)) by (nonlinear_arith)
                requires
                    prod == (radius as int) * (theta as int),
                    0 <= radius <= 2_000_000_000,
                    0 < theta <= TWO_PI_FP,
            ;
        }
        let planar = div_pos(prod, FP as i128);
        proof {
            assert(planar <= 12_566_372_000);
        }
        let psq = mul_wide_128(planar, planar);
        let zsq = mul_wide(dz, dz);
        proof {
            assert(0 <= psq <= 12_566_372_000 * 12_566_372_000) by (nonlinear_arith)
                requires
                    psq == (planar as int) * (planar as int),
                    0 <= planar <= 12_566_372_000,
            ;
            assert(0 <= zsq <= (2 * VAL_LIMIT as int) * (2 * VAL_LIMIT as int))
                by (nonlinear_arith)
                requires
                    zsq == (dz as int) * (dz as int),
                    iabs(dz as int) <= 2 * VAL_LIMIT,
            ;
        }
        let s = psq + zsq;
        let d = isqrt_u128(s as u128);
        proof {
            assert(d as int <= 13_000_000_000) by (nonlinear_arith)
                requires
                    (d as int) * (d as int) <= s as int,
                    s as int <= 12_566_372_000 * 12_566_372_000 + (2 * VAL_LIMIT as int) * (2
                        * VAL_LIMIT as int),
                    0 <= d as int,
            ;
        }
        Ok(d as i64)
    }

    /// The travel distance of this line under its active motion mode.
    fn get_distance(&self) -> (r: Result<i64, GcodeError>)
        requires
            self.bounded(),
        ensures
            match spec_distance(*self) {
                Ok(d) => r matches Ok(v) && v == d && 0 <= d <= DIST_CAP,
                Err(e) => r == Err::<i64, GcodeError>(e),
            },
    {
        if let Some(dest) = self.dest {
            if dest.is_empty() {
                return Ok(0);
            }
        } else {
            return Ok(0);
        }

        let move_type = match &self.move_type {
            Some(GCode::MT(mt)) => mt,
            Some(_) => {
                return Ok(0);
            },
            None => {
                return Ok(0);
            },
        };
        match move_type {
            MoveTypes::G0 => self.get_dist_line(),
            MoveTypes::G1 => self.get_dist_line(),
            MoveTypes::G2 => self.get_dist_arc(Direction::CW),
            MoveTypes::G3 => self.get_dist_arc(Direction::CCW),
        }
    }

    /// The duration of this line for an already-computed distance,
    /// recording the too-fast advisory when the feed outruns the machine.
    fn get_duration(&self, dist: i64, warnlog: &mut Warnlog) -> (r: Result<i64, GcodeError>)
        requires
            self.bounded(),
            0 <= dist <= DIST_CAP,
            old(warnlog).wf(),
        ensures
            final(warnlog).wf(),
            match spec_duration(*self, dist as int) {
                Ok((t, w)) => {
                    &&& r matches Ok(v)
                    &&& v == t
                    &&& 0 <= t
                    &&& final(warnlog).types() == (if w {
                        spec_warn_types(old(warnlog).types(), WarnType::TooFast)
                    } else {
                        old(warnlog).types()
                    })
                },
                Err(e) => r == Err::<i64, GcodeError>(e) && *final(warnlog) == *old(warnlog),
            },
    {
        let move_type = match &self.move_type {
            Some(GCode::MT(mt)) => mt,
            Some(_) => {
                return Ok(0);
            },
            None => {
                return Ok(0);
            },
        };

        let min_duration = match self.get_durat_g0() {
            Ok(t) => t,
            Err(e) => {
                return Err(e);
            },
        };

        match move_type {
            MoveTypes::G0 => Ok(min_duration),
            mt => match self.speed {
                Some(s) => {
                    let cand: i64 = if s > 0 {
                        div_pos((dist as i128) * 60000, s as i128) as i64
                    } else if s < 0 {
                        -(div_pos((dist as i128) * 60000, -(s as i128)) as i64)
                    } else {
                        DUR_CAP
                    };
                    if cand < min_duration {
                        warnlog.warn(WarnType::TooFast);
                        Ok(min_duration)
                    } else {
                        Ok(cand)
                    }
                },
                None => Err(GcodeError::MissingFeed(*mt)),
            },
        }
    }

    /// Distance and duration of this line, in thousandths of a second and
    /// of a millimetre, recording the too-fast advisory where clamping
    /// occurred.
    pub fn get_stats(&self, warnlog: &mut Warnlog) -> (r: Result<(i64, i64), GcodeError>)
        requires
            self.bounded(),
            old(warnlog).wf(),
        ensures
            final(warnlog).wf(),
            match spec_stats(*self) {
                Ok((t, d, w)) => {
                    &&& r matches Ok(v)
                    &&& v.0 == t
                    &&& v.1 == d
                    &&& 0 <= t
                    &&& 0 <= d <= DIST_CAP
                    &&& final(warnlog).types() == (if w {
                        spec_warn_types(old(warnlog).types(), WarnType::TooFast)
                    } else {
                        old(warnlog).types()
                    })
                },
                Err(e) => r == Err::<(i64, i64), GcodeError>(e) && *final(warnlog) == *old(
                    warnlog,
                ),
            },
    {
        let dist = match self.get_distance() {
            Ok(d) => d,
            Err(e) => {
                return Err(e);
            },
        };
        let time = match self.get_duration(dist, warnlog) {
            Ok(t) => t,
            Err(e) => {
                return Err(e);
            },
        };
        Ok((time, dist))
    }
}

/// A successfully priced circular move never travels a negative distance.
proof fn lemma_dist_arc_nonneg(mg: ModalGroup, cw: bool)
    ensures
        spec_dist_arc(mg, cw) matches Ok(d) ==> d >= 0,
{
    match mg.dest {
        None => {},
        Some(dd) => match mg.reference {
            None => {},
            Some(rf) => {
                if mg.origin.x is Some && mg.origin.y is Some && mg.origin.z is Some {
                    let cp = spec_rad_cp(dd);
                    let cd = spec_rad_cd(mg.origin, dd, rf);
                    let dz = spec_rad_dz(mg.origin, dd, rf);
                    let ncp = sqrt_floor(norm_sq(cp));
                    let ncd = sqrt_floor(norm_sq(cd));
                    if ncp * ncd != 0 {
                        let radius = (ncp + ncd) / 2;
                        let theta = spec_arc_theta(cp, cd, cw);
                        let planar = radius * theta / (FP as int);
                        assert(sq(planar) >= 0) by {
                            assert(planar * planar >= 0) by (nonlinear_arith);
                        }
                        assert(sq(dz) >= 0) by {
                            assert(dz * dz >= 0) by (nonlinear_arith);
                        }
                        crate::fixed::lemma_sqrt_floor(sq(planar) + sq(dz));
                    }
                }
            },
        },
    }
}

/// A successfully priced line never travels a negative distance.
proof fn lemma_distance_nonneg(mg: ModalGroup)
    ensures
        spec_distance(mg) matches Ok(d) ==> d >= 0,
{
    match spec_deltas(mg) {
        Err(_) => {},
        Ok((dx, dy, dz)) => {
            assert(sq(dx) >= 0) by {
                assert(dx * dx >= 0) by (nonlinear_arith);
            }
            assert(sq(dy) >= 0) by {
                assert(dy * dy >= 0) by (nonlinear_arith);
            }
            assert(sq(dz) >= 0) by {
                assert(dz * dz >= 0) by (nonlinear_arith);
            }
            crate::fixed::lemma_sqrt_floor(sq(dx) + sq(dy) + sq(dz));
        },
    }
    lemma_dist_arc_nonneg(mg, true);
    lemma_dist_arc_nonneg(mg, false);
}

/// For a bounded snapshot the rapid floor is never negative.
proof fn lemma_rapid_floor_nonneg(mg: ModalGroup)
    requires
        mg.bounded(),
    ensures
        spec_rapid_floor(mg) matches Ok(f) ==> f >= 0,
{
    match spec_deltas(mg) {
        Err(_) => {},
        Ok((dx, dy, dz)) => {
            vstd::arithmetic::div_mod::lemma_div_pos_is_pos(
                iabs(dx) * 60000,
                mg.max_speed.0 as int,
            );
            vstd::arithmetic::div_mod::lemma_div_pos_is_pos(
                iabs(dy) * 60000,
                mg.max_speed.1 as int,
            );
            vstd::arithmetic::div_mod::lemma_div_pos_is_pos(
                iabs(dz) * 60000,
                mg.max_speed.2 as int,
            );
        },
    }
}

/// For a bounded snapshot, pricing never owes negative statistics: the
/// duration is at least the nonnegative rapid floor and the distance is a
/// rounded square root.
pub proof fn lemma_stats_nonneg(mg: ModalGroup)
    requires
        mg.bounded(),
    ensures
        spec_stats(mg) matches Ok(v) ==> v.0 >= 0 && v.1 >= 0,
{
    lemma_distance_nonneg(mg);
    lemma_rapid_floor_nonneg(mg);
}

/// The duration of any line whose duration is defined is never less than
/// the rapid floor of the same displacements: where the commanded feed
/// would undercut it, the estimate is clamped to the floor.
pub proof fn lemma_duration_at_least_rapid_floor(mg: ModalGroup, dist: int)
    requires
        spec_duration(mg, dist) is Ok,
        mt_of(mg) is Some,
    ensures
        spec_rapid_floor(mg) is Ok,
        spec_duration(mg, dist)->Ok_0.0 >= spec_rapid_floor(mg)->Ok_0,
{
}

/// A rapid or linear move commanding the same physical motion travels the
/// same distance under either referential: an incremental destination equal
/// to the absolute destination minus the origin gives equal displacements,
/// hence an equal distance.
pub proof fn lemma_linear_referential_invariance(mg_abs: ModalGroup, mg_inc: ModalGroup)
    requires
        mg_abs.reference == Some(Referential::Absolute),
        mg_inc.reference == Some(Referential::Increment),
        mg_abs.origin == mg_inc.origin,
        mg_abs.origin.x is Some,
        mg_abs.origin.y is Some,
        mg_abs.origin.z is Some,
        mt_of(mg_abs) == mt_of(mg_inc),
        mt_of(mg_abs) == Some(MoveTypes::G0) || mt_of(mg_abs) == Some(MoveTypes::G1),
        mg_abs.dest is Some,
        mg_inc.dest is Some,
        mg_abs.dest->0.x is Some <==> mg_inc.dest->0.x is Some,
        mg_abs.dest->0.y is Some <==> mg_inc.dest->0.y is Some,
        mg_abs.dest->0.z is Some <==> mg_inc.dest->0.z is Some,
        mg_abs.dest->0.x is Some ==> mg_inc.dest->0.x->0 == mg_abs.dest->0.x->0
            - mg_abs.origin.x->0,
        mg_abs.dest->0.y is Some ==> mg_inc.dest->0.y->0 == mg_abs.dest->0.y->0
            - mg_abs.origin.y->0,
        mg_abs.dest->0.z is Some ==> mg_inc.dest->0.z->0 == mg_abs.dest->0.z->0
            - mg_abs.origin.z->0,
        mg_abs.dest->0.i == mg_inc.dest->0.i,
        mg_abs.dest->0.j == mg_inc.dest->0.j,
        mg_abs.dest->0.k == mg_inc.dest->0.k,
    ensures
        spec_distance(mg_abs) == spec_distance(mg_inc),
{
    assert(spec_deltas(mg_abs) == spec_deltas(mg_inc));
    assert(mg_abs.dest->0.spec_is_empty() <==> mg_inc.dest->0.spec_is_empty());
}

/// A full-circle arc, with its destination equal to its origin and a
/// nonzero centre offset, travels exactly the circumference: the rounded
/// norm of the centre offset times two pi.
pub proof fn lemma_full_circle_distance(mg: ModalGroup, cw: bool)
    requires
        mg.reference is Some,
        mg.origin.x is Some,
        mg.origin.y is Some,
        mg.origin.z is Some,
        mg.dest is Some,
        mg.reference == Some(Referential::Absolute) ==> {
            &&& (mg.dest->0.x is Some ==> mg.dest->0.x->0 == mg.origin.x->0)
            &&& (mg.dest->0.y is Some ==> mg.dest->0.y->0 == mg.origin.y->0)
            &&& (mg.dest->0.z is Some ==> mg.dest->0.z->0 == mg.origin.z->0)
        },
        mg.reference == Some(Referential::Increment) ==> {
            &&& (mg.dest->0.x is Some ==> mg.dest->0.x->0 == 0)
            &&& (mg.dest->0.y is Some ==> mg.dest->0.y->0 == 0)
            &&& (mg.dest->0.z is Some ==> mg.dest->0.z->0 == 0)
        },
        norm_sq(spec_rad_cp(mg.dest->0)) >= 1,
        mg.dest->0.in_limit(VAL_LIMIT as int),
    ensures
        spec_dist_arc(mg, cw) == Ok::<int, GcodeError>(
            sqrt_floor(norm_sq(spec_rad_cp(mg.dest->0))) * TWO_PI_FP / (FP as int),
        ),
{
    let d = mg.dest->0;
    let rf = mg.reference->0;
    let cp = spec_rad_cp(d);
    let cd = spec_rad_cd(mg.origin, d, rf);
    let dz = spec_rad_dz(mg.origin, d, rf);
    assert(cd == cp);
    assert(dz == 0);

    let nsq = norm_sq(cp);
    let n = sqrt_floor(nsq);
    crate::fixed::lemma_sqrt_floor(nsq);
    assert(nsq < (n + 1) * (n + 1));
    assert(n >= 1) by (nonlinear_arith)
        requires
            n >= 0,
            nsq >= 1,
            nsq < (n + 1) * (n + 1),
    ;
    assert(n * n >= 1) by (nonlinear_arith)
        requires
            n >= 1,
    ;
    assert(dot(cp, cp) == nsq);

    let den = n * n;
    let num = nsq * (FP as int);
    assert(den * (FP as int) <= num) by (nonlinear_arith)
        requires
            den <= nsq,
            den >= 1,
            num == nsq * (FP as int),
            den * (FP as int) == den * (FP as int),
    ;
    assert(num >= 0) by (nonlinear_arith)
        requires
            nsq >= 1,
            num == nsq * (FP as int),
    ;
    vstd::arithmetic::div_mod::lemma_div_is_ordered(den * (FP as int), num, den);
    assert((den * (FP as int)) / den == FP as int) by {
        vstd::arithmetic::div_mod::lemma_div_by_multiple(FP as int, den);
        assert(den * (FP as int) == (FP as int) * den) by (nonlinear_arith);
    }
    assert(spec_arc_ratio(cp, cd) >= FP);
    assert(clamp_fp(spec_arc_ratio(cp, cd)) == FP as int);
    assert(spec_acos_fp(FP as int) == 0);

    assert(cross_q(cp, cp) == 0) by (nonlinear_arith);
    assert(spec_arc_theta(cp, cd, cw) == TWO_PI_FP);

    let radius = (n + n) / 2;
    assert(radius == n) by {
        vstd::arithmetic::div_mod::lemma_div_by_multiple(n, 2);
        assert(n + n == 2 * n);
    }

    let planar = n * (TWO_PI_FP as int) / (FP as int);
    assert(planar >= 0) by {
        assert(n * (TWO_PI_FP as int) >= 0) by (nonlinear_arith)
            requires
                n >= 1,
        ;
        vstd::arithmetic::div_mod::lemma_div_pos_is_pos(n * (TWO_PI_FP as int), FP as int);
    }
    assert(sq(planar) + sq(dz) == sq(planar));
    assert(planar * planar < (planar + 1) * (planar + 1)) by (nonlinear_arith)
        requires
            planar >= 0,
    ;
    crate::fixed::lemma_sqrt_floor_unique(sq(planar), planar);
}

} // verus!
