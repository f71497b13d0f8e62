//! Sample encodings and lossless-enough conversions between them: 16-bit and
//! 32-bit integer samples, and the engines' own fixed-point samples (`i64` on
//! the [`crate::fixed::ONE`] scale, standing in for a fractional amplitude in
//! `[-1, 1]`).

use vstd::prelude::*;

use crate::fixed::{ONE, HALF, div_fp};

verus! {

/// How a sample encoding stores values.
#[derive(Debug, Clone, Copy, PartialEq, Eq)]
pub enum SampleFormat {
    /// Whole-number amplitudes.
    Int,
    /// Fractional amplitudes in `[-1, 1]` (here: fixed-point).
    Float,
}

/// A sample encoding: its wire format and the declared bits per stored sample.
pub trait AudioSample: Sized {
    /// The wire format of this encoding.
    fn sample_format() -> SampleFormat;

    /// The number of bits a stored sample declares.
    fn bits_per_sample() -> u16;
}

impl AudioSample for i16 {
    fn sample_format() -> SampleFormat {
        SampleFormat::Int
    }

    fn bits_per_sample() -> u16 {
        16
    }
}

impl AudioSample for i32 {
    fn sample_format() -> SampleFormat {
        SampleFormat::Int
    }

    fn bits_per_sample() -> u16 {
        16
    }
}

impl AudioSample for i64 {
    fn sample_format() -> SampleFormat {
        SampleFormat::Float
    }

    fn bits_per_sample() -> u16 {
        32
    }
}

/// Round a fixed-point value to the nearest whole unit, halves away from zero.
pub open spec fn round_fp(v: int) -> int {
    if v >= 0 {
        (v + HALF) / (ONE as int)
    } else {
        -(((-v) + HALF) / (ONE as int))
    }
}

/// Conversion of one sample into another encoding; `convert_spec` says the
/// exact value.
pub trait ConvertSample<T>: Sized {
    /// The value this sample converts to.
    spec fn convert_spec(self) -> T;

    /// Convert the sample.
    fn convert_sample(self) -> (r: T)
        ensures
            r == self.convert_spec(),
    ;
}

impl ConvertSample<i16> for i16 {
    open spec fn convert_spec(self) -> i16 {
        self
    }

    fn convert_sample(self) -> (r: i16) {
        self
    }
}

impl ConvertSample<i32> for i16 {
    /// Widen by moving the sample into the top 16 bits.
    open spec fn convert_spec(self) -> i32 {
        ((self as int) * 65536) as i32
    }

    fn convert_sample(self) -> (r: i32) {
        (self as i32) * 65536
    }
}

impl ConvertSample<i64> for i16 {
    /// Scale onto the fixed-point amplitude scale (full scale maps near one
    /// unit), saturated into `[-ONE, ONE]`.
    open spec fn convert_spec(self) -> i64 {
        let v = div_fp(self * ONE, 32767);
        if v < -ONE {
            (-ONE) as i64
        } else if v > ONE {
            ONE
        } else {
            v as i64
        }
    }

    fn convert_sample(self) -> (r: i64) {
        let v: i64 = ((self as i64) * ONE) / 32767;
        if v < -ONE {
            -ONE
        } else if v > ONE {
            ONE
        } else {
            v
        }
    }
}

impl ConvertSample<i16> for i32 {
    /// Narrow by dropping the low 16 bits (rounding toward negative
    /// infinity).
    open spec fn convert_spec(self) -> i16 {
        (if self >= 0 {
            div_fp(self as int, 65536)
        } else {
            -div_fp((-self) + 65535, 65536)
        }) as i16
    }

    fn convert_sample(self) -> (r: i16) {
        if self >= 0 {
            (self / 65536) as i16
        } else {
            let a: i64 = -(self as i64);
            (-((a + 65535) / 65536)) as i16
        }
    }
}

impl ConvertSample<i32> for i32 {
    open spec fn convert_spec(self) -> i32 {
        self
    }

    fn convert_sample(self) -> (r: i32) {
        self
    }
}

impl ConvertSample<i64> for i32 {
    /// Scale onto the fixed-point amplitude scale, saturated into
    /// `[-ONE, ONE]`.
    open spec fn convert_spec(self) -> i64 {
        let v = div_fp(self * ONE, 2147483647);
        if v < -ONE {
            (-ONE) as i64
        } else if v > ONE {
            ONE
        } else {
            v as i64
        }
    }

    fn convert_sample(self) -> (r: i64) {
        let v: i64 = ((self as i64) * ONE) / 2147483647;
        if v < -ONE {
            -ONE
        } else if v > ONE {
            ONE
        } else {
            v
        }
    }
}

impl ConvertSample<i16> for i64 {
    /// Scale a fixed-point amplitude to 16-bit full scale, saturate, and
    /// round to nearest (halves away from zero).
    open spec fn convert_spec(self) -> i16 {
        let v = self * 32767;
        (round_fp(
            if v < (-32768) * (ONE as int) {
                (-32768) * (ONE as int)
            } else if v > 32767 * (ONE as int) {
                32767 * (ONE as int)
            } else {
                v
            },
        )) as i16
    }

    fn convert_sample(self) -> (r: i16) {
        let v: i128 = (self as i128) * 32767;
        let lo: i128 = -34359738368;
        let hi: i128 = 34358689792;
        proof {
            assert(lo as int == (-32768) * (ONE as int));
            assert(hi as int == 32767 * (ONE as int));
        }
        let c: i128 = if v < lo {
            lo
        } else if v > hi {
            hi
        } else {
            v
        };
        let r: i128 = if c >= 0 {
            (c + (HALF as i128)) / (ONE as i128)
        } else {
            -(((-c) + (HALF as i128)) / (ONE as i128))
        };
        proof {
            vstd::arithmetic::div_mod::lemma_div_is_ordered(
                c as int + HALF,
                32767 * (ONE as int) + HALF,
                ONE as int,
            );
            vstd::arithmetic::div_mod::lemma_div_is_ordered(
                (-(c as int)) + HALF,
                32768 * (ONE as int) + HALF,
                ONE as int,
            );
        }
        r as i16
    }
}

impl ConvertSample<i32> for i64 {
    /// Scale a fixed-point amplitude to 32-bit full scale, saturate, and
    /// round to nearest (halves away from zero).
    open spec fn convert_spec(self) -> i32 {
        let v = self * 2147483647;
        (round_fp(
            if v < (-2147483648) * (ONE as int) {
                (-2147483648) * (ONE as int)
            } else if v > 2147483647 * (ONE as int) {
                2147483647 * (ONE as int)
            } else {
                v
            },
        )) as i32
    }

    fn convert_sample(self) -> (r: i32) {
        let v: i128 = (self as i128) * 2147483647;
        let lo: i128 = -2251799813685248;
        let hi: i128 = 2251799812636672;
        proof {
            assert(lo as int == (-2147483648) * (ONE as int));
            assert(hi as int == 2147483647 * (ONE as int));
        }
        let c: i128 = if v < lo {
            lo
        } else if v > hi {
            hi
        } else {
            v
        };
        let r: i128 = if c >= 0 {
            (c + (HALF as i128)) / (ONE as i128)
        } else {
            -(((-c) + (HALF as i128)) / (ONE as i128))
        };
        proof {
            vstd::arithmetic::div_mod::lemma_div_is_ordered(
                c as int + HALF,
                2147483647 * (ONE as int) + HALF,
                ONE as int,
            );
            vstd::arithmetic::div_mod::lemma_div_is_ordered(
                (-(c as int)) + HALF,
                2147483648 * (ONE as int) + HALF,
                ONE as int,
            );
        }
        r as i32
    }
}

impl ConvertSample<i64> for i64 {
    open spec fn convert_spec(self) -> i64 {
        self
    }

    fn convert_sample(self) -> (r: i64) {
        self
    }
}

/// Conversion of a whole buffer of samples into another encoding.
pub trait ConvertSamples<T>: Sized {
    /// The converted buffer, element by element.
    spec fn converted_view(self) -> Seq<T>;

    /// Convert every sample.
    fn convert_samples(self) -> (r: Vec<T>)
        ensures
            r@ == self.converted_view(),
    ;
}

impl<T, U: ConvertSample<T> + Copy> ConvertSamples<T> for Vec<U> {
    open spec fn converted_view(self) -> Seq<T> {
        Seq::new(self@.len(), |i: int| self@[i].convert_spec())
    }

    fn convert_samples(self) -> (r: Vec<T>) {
        let n = self.len();
        let mut out: Vec<T> = Vec::new();
        let mut i: usize = 0;
        while i < n
            invariant
                i <= n,
                n == self@.len(),
                out@.len() == i,
                forall|j: int| 0 <= j < i ==> #[trigger] out@[j] == self@[j].convert_spec(),
            decreases n - i,
        {
            let v = self[i].convert_sample();
            out.push(v);
            i += 1;
        }
        proof {
            assert(out@ =~= self.converted_view());
        }
        out
    }
}

} // verus!
