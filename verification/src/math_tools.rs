//! Vector arithmetic on `Coord` treated as a displacement: norm, dot
//! product, the combined cross quantity used for arc direction, and the
//! derivation of the two arc radius vectors.

use vstd::prelude::*;

use crate::errors::GcodeError;
use crate::fixed::{sq, VAL_LIMIT, VEC_LIMIT};
use crate::objects_def::{opt0, Coord, Referential};

verus! {

/// The squared Euclidean norm of the positional part of a record.
pub open spec fn norm_sq(c: Coord) -> int {
    sq(opt0(c.x)) + sq(opt0(c.y)) + sq(opt0(c.z))
}

/// The dot product of the positional parts of two records.
pub open spec fn dot(a: Coord, b: Coord) -> int {
    opt0(a.x) * opt0(b.x) + opt0(a.y) * opt0(b.y) + opt0(a.z) * opt0(b.z)
}

/// The combined cross quantity of two records: the sum of the three signed
/// planar cross products over every axis pair.  This is deliberately not a
/// plane-normal component; it is the exact quantity the direction correction
/// of arcs is defined over.
pub open spec fn cross_q(a: Coord, b: Coord) -> int {
    (opt0(a.y) * opt0(b.z) - opt0(a.z) * opt0(b.y)) + (opt0(a.z) * opt0(b.x) - opt0(a.x) * opt0(
        b.z,
    )) + (opt0(a.x) * opt0(b.y) - opt0(a.y) * opt0(b.x))
}

/// The per-axis displacement a destination value commands: under the
/// absolute referential the difference to the origin, under the incremental
/// referential the value itself; an unspecified axis commands none.
pub open spec fn axis_delta(d: Option<i64>, o: int, rf: Referential) -> int {
    match rf {
        Referential::Absolute => if d is Some {
            d->0 - o
        } else {
            0
        },
        Referential::Increment => if d is Some {
            d->0 as int
        } else {
            0
        },
    }
}

/// The vector from the arc centre back to the start point: the negated
/// centre offsets.
pub open spec fn spec_rad_cp(dest: Coord) -> Coord {
    Coord {
        x: Some((-opt0(dest.i)) as i64),
        y: Some((-opt0(dest.j)) as i64),
        z: Some((-opt0(dest.k)) as i64),
        i: None,
        j: None,
        k: None,
    }
}

/// The vector from the arc centre to the end point: the commanded
/// displacement minus the centre offsets, axis by axis.
pub open spec fn spec_rad_cd(origin: Coord, dest: Coord, rf: Referential) -> Coord {
    Coord {
        x: Some((axis_delta(dest.x, opt0(origin.x), rf) - opt0(dest.i)) as i64),
        y: Some((axis_delta(dest.y, opt0(origin.y), rf) - opt0(dest.j)) as i64),
        z: Some((axis_delta(dest.z, opt0(origin.z), rf) - opt0(dest.k)) as i64),
        i: None,
        j: None,
        k: None,
    }
}

/// The plain z displacement of the line, as the linear case computes it.
pub open spec fn spec_rad_dz(origin: Coord, dest: Coord, rf: Referential) -> int {
    axis_delta(dest.z, opt0(origin.z), rf)
}

/// The product of two values each within the given magnitude is within its
/// square.
pub proof fn lemma_mul_limit(a: int, b: int, lim: int)
    requires
        -lim <= a <= lim,
        -lim <= b <= lim,
        0 <= lim,
    ensures
        -(lim * lim) <= a * b <= lim * lim,
{
    assert(-(lim * lim) <= a * b <= lim * lim) by (nonlinear_arith)
        requires
            -lim <= a <= lim,
            -lim <= b <= lim,
            0 <= lim,
    ;
}

impl Coord {
    /// The Euclidean norm of the positional part, rounded down to the unit.
    pub fn norm(&self) -> (r: i64)
        requires
            self.in_limit(VEC_LIMIT as int),
        ensures
            r == crate::fixed::sqrt_floor(norm_sq(*self)),
            0 <= r <= 2_000_000_000,
            sq(r as int) <= norm_sq(*self),
            norm_sq(*self) < sq(r as int + 1),
    {
        let x = self.x.unwrap_or(0);
        let y = self.y.unwrap_or(0);
        let z = self.z.unwrap_or(0);
        proof {
            lemma_mul_limit(x as int, x as int, VEC_LIMIT as int);
            lemma_mul_limit(y as int, y as int, VEC_LIMIT as int);
            lemma_mul_limit(z as int, z as int, VEC_LIMIT as int);
            assert((x as int) * (x as int) >= 0) by (nonlinear_arith);
            assert((y as int) * (y as int) >= 0) by (nonlinear_arith);
            assert((z as int) * (z as int) >= 0) by (nonlinear_arith);
        }
        let s: i128 = (x as i128) * (x as i128) + (y as i128) * (y as i128) + (z as i128) * (
        z as i128);
        let r = crate::fixed::isqrt_u128(s as u128);
        proof {
            assert(r as int <= 2_000_000_000) by (nonlinear_arith)
                requires
                    (r as int) * (r as int) <= s as int,
                    s as int <= 3 * (VEC_LIMIT as int) * (VEC_LIMIT as int),
                    0 <= r as int,
            ;
        }
        r as i64
    }

    /// The dot product with another record, over the positional axes.
    pub fn scalar_product(&self, v2: &Coord) -> (r: i64)
        requires
            self.in_limit(VEC_LIMIT as int),
            v2.in_limit(VEC_LIMIT as int),
        ensures
            r == dot(*self, *v2),
    {
        let x1 = self.x.unwrap_or(0);
        let y1 = self.y.unwrap_or(0);
        let z1 = self.z.unwrap_or(0);
        let x2 = v2.x.unwrap_or(0);
        let y2 = v2.y.unwrap_or(0);
        let z2 = v2.z.unwrap_or(0);
        proof {
            lemma_mul_limit(x1 as int, x2 as int, VEC_LIMIT as int);
            lemma_mul_limit(y1 as int, y2 as int, VEC_LIMIT as int);
            lemma_mul_limit(z1 as int, z2 as int, VEC_LIMIT as int);
        }
        let s: i128 = (x1 as i128) * (x2 as i128) + (y1 as i128) * (y2 as i128) + (z1 as i128) * (
        z2 as i128);
        s as i64
    }

    /// The combined cross quantity with another record.
    pub fn cross_product(&self, v2: &Coord) -> (r: i64)
        requires
            self.in_limit(VEC_LIMIT as int),
            v2.in_limit(VEC_LIMIT as int),
        ensures
            r == cross_q(*self, *v2),
    {
        let x1 = self.x.unwrap_or(0);
        let y1 = self.y.unwrap_or(0);
        let z1 = self.z.unwrap_or(0);
        let x2 = v2.x.unwrap_or(0);
        let y2 = v2.y.unwrap_or(0);
        let z2 = v2.z.unwrap_or(0);
        proof {
            lemma_mul_limit(y1 as int, z2 as int, VEC_LIMIT as int);
            lemma_mul_limit(z1 as int, y2 as int, VEC_LIMIT as int);
            lemma_mul_limit(z1 as int, x2 as int, VEC_LIMIT as int);
            lemma_mul_limit(x1 as int, z2 as int, VEC_LIMIT as int);
            lemma_mul_limit(x1 as int, y2 as int, VEC_LIMIT as int);
            lemma_mul_limit(y1 as int, x2 as int, VEC_LIMIT as int);
        }
        let s: i128 = ((y1 as i128) * (z2 as i128) - (z1 as i128) * (y2 as i128)) + ((z1 as i128)
            * (x2 as i128) - (x1 as i128) * (z2 as i128)) + ((x1 as i128) * (y2 as i128) - (
        y1 as i128) * (x2 as i128));
        s as i64
    }

    /// Derives, for an arc line, the vector from the centre to the start
    /// point, the vector from the centre to the end point, and the plain z
    /// displacement.  Centre offsets are always increments from the origin;
    /// the referential only resolves the end point.
    pub fn to_rad_vec(&self, dest: &Coord, reference: &Referential) -> (r: Result<
        (Coord, Coord, i64),
        GcodeError,
    >)
        requires
            self.in_limit(VAL_LIMIT as int),
            dest.in_limit(VAL_LIMIT as int),
        ensures
            self.x is None ==> r == Err::<(Coord, Coord, i64), GcodeError>(
                GcodeError::MissingOrigin('X'),
            ),
            self.x is Some && self.y is None ==> r == Err::<(Coord, Coord, i64), GcodeError>(
                GcodeError::MissingOrigin('Y'),
            ),
            self.x is Some && self.y is Some && self.z is None ==> r == Err::<
                (Coord, Coord, i64),
                GcodeError,
            >(GcodeError::MissingOrigin('Z')),
            self.x is Some && self.y is Some && self.z is Some ==> r == Ok::<
                (Coord, Coord, i64),
                GcodeError,
            >(
                (
                    spec_rad_cp(*dest),
                    spec_rad_cd(*self, *dest, *reference),
                    spec_rad_dz(*self, *dest, *reference) as i64,
                ),
            ),
    {
        let x0 = match self.x {
            Some(u) => u,
            None => {
                return Err(GcodeError::MissingOrigin('X'));
            },
        };
        let y0 = match self.y {
            Some(u) => u,
            None => {
                return Err(GcodeError::MissingOrigin('Y'));
            },
        };
        let z0 = match self.z {
            Some(u) => u,
            None => {
                return Err(GcodeError::MissingOrigin('Z'));
            },
        };

        let i = dest.i.unwrap_or(0);
        let j = dest.j.unwrap_or(0);
        let k = dest.k.unwrap_or(0);
        let (dx, dy, dz) = match reference {
            Referential::Absolute => {
                let dx = match dest.x {
                    Some(x1) => x1 - x0,
                    None => 0,
                };
                let dy = match dest.y {
                    Some(y1) => y1 - y0,
                    None => 0,
                };
                let dz = match dest.z {
                    Some(z1) => z1 - z0,
                    None => 0,
                };
                (dx, dy, dz)
            },
            Referential::Increment => (dest.x.unwrap_or(0), dest.y.unwrap_or(0), dest.z.unwrap_or(
                0,
            )),
        };

        let cp = Coord { x: Some(-i), y: Some(-j), z: Some(-k), i: None, j: None, k: None };
        let cd = Coord {
            x: Some(dx - i),
            y: Some(dy - j),
            z: Some(dz - k),
            i: None,
            j: None,
            k: None,
        };
        Ok((cp, cd, dz))
    }
}

} // verus!
