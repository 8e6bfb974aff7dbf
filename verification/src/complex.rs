//! Complex values over fixed-point coordinates, with the closed-form square
//! and the squared magnitude used by the escape-time recurrence.

use vstd::prelude::*;
use crate::fixed::{mul_raw, sq_raw, fp_mul, fp_sq};

verus! {

/// Escape threshold on the raw squared magnitude: 16 plane units.
pub const ESCAPE_LIMIT: i64 = 68719476736;

/// Largest magnitude a sampled point's coordinate may have: 512 units, raw.
pub const C_LIMIT: i64 = 2199023255552;

/// Bound kept on the orbit's components between iterations: 1024 units, raw.
pub const Z_LIMIT: i64 = 4398046511104;

/// A complex number; each component is a raw fixed-point value.
#[derive(Clone, Copy, PartialEq, Eq, Structural, Debug)]
pub struct Complex {
    pub real: i64,
    pub imag: i64,
}

/// Raw squared magnitude of `(zr, zi)`.
pub open spec fn mag_raw(zr: int, zi: int) -> int {
    sq_raw(zr) + sq_raw(zi)
}

/// Real part of `z * z + c`.
pub open spec fn step_re(zr: int, zi: int, cr: int) -> int {
    sq_raw(zr) - sq_raw(zi) + cr
}

/// Imaginary part of `z * z + c`.
pub open spec fn step_im(zr: int, zi: int, ci: int) -> int {
    mul_raw(zr + zr, zi) + ci
}

impl Complex {
    /// Squares in place, in closed form: `(re^2 - im^2, 2 re im)`.
    pub fn square(&mut self)
        requires
            -Z_LIMIT <= old(self).real <= Z_LIMIT,
            -Z_LIMIT <= old(self).imag <= Z_LIMIT,
        ensures
            final(self).real == step_re(old(self).real as int, old(self).imag as int, 0),
            final(self).imag == step_im(old(self).real as int, old(self).imag as int, 0),
            -0x80000000000000 <= final(self).real <= 0x80000000000000,
            -0x40000000000000 <= final(self).imag <= 0x40000000000000,
    {
        let real_part = fp_sq(self.real) - fp_sq(self.imag);
        let imag_part = fp_mul(self.real + self.real, self.imag);
        self.real = real_part;
        self.imag = imag_part;
    }

    /// Raw squared magnitude (`|z|^2` scaled by `SCALE`); never negative.
    pub fn mag(&self) -> (r: i64)
        requires
            -Z_LIMIT <= self.real <= Z_LIMIT,
            -Z_LIMIT <= self.imag <= Z_LIMIT,
        ensures
            r == mag_raw(self.real as int, self.imag as int),
            0 <= r,
    {
        fp_sq(self.imag) + fp_sq(self.real)
    }

    /// Componentwise sum.
    pub fn add(self, other: Complex) -> (r: Complex)
        requires
            -0x1000000000000000 <= self.real <= 0x1000000000000000,
            -0x1000000000000000 <= self.imag <= 0x1000000000000000,
            -0x1000000000000000 <= other.real <= 0x1000000000000000,
            -0x1000000000000000 <= other.imag <= 0x1000000000000000,
        ensures
            r.real == self.real + other.real,
            r.imag == self.imag + other.imag,
    {
        Complex { real: self.real + other.real, imag: self.imag + other.imag }
    }
}

} // verus!
