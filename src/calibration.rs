use vstd::prelude::*;
use crate::header::pow10_u64;
use crate::model::{pow10, ChannelHeader, Decimal};
use crate::text::lemma_pow10_positive;

verus! {

/// Whether two decimals stand for the same number.
pub open spec fn same_number(x: Decimal, y: Decimal) -> bool {
    x.mantissa * pow10(y.exponent as nat) == y.mantissa * pow10(x.exponent as nat)
}

/// The numerator of a channel's scale factor
/// `(physical_maximum − physical_minimum) / (digital_maximum − digital_minimum)`.
pub open spec fn scale_numerator(ch: ChannelHeader) -> int {
    ch.physical_maximum.mantissa * pow10(ch.physical_minimum.exponent as nat)
        - ch.physical_minimum.mantissa * pow10(ch.physical_maximum.exponent as nat)
}

/// The denominator of a channel's scale factor.
pub open spec fn scale_denominator(ch: ChannelHeader) -> int {
    pow10(ch.physical_maximum.exponent as nat) * pow10(ch.physical_minimum.exponent as nat) * (
    ch.digital_maximum - ch.digital_minimum)
}

impl ChannelHeader {
    /// The scale factor as an exact fraction `(numerator, denominator)`.
    pub fn scale_fraction(&self) -> (r: (i128, i128))
        requires
            self.wf(),
        ensures
            r.0 == scale_numerator(*self),
            r.1 == scale_denominator(*self),
            r.1 != 0,
    {
        let p_max = pow10_u64(self.physical_maximum.exponent);
        let p_min = pow10_u64(self.physical_minimum.exponent);
        proof {
            crate::text::lemma_pow10_monotone(self.physical_maximum.exponent as nat, 8);
            crate::text::lemma_pow10_monotone(self.physical_minimum.exponent as nat, 8);
            crate::text::lemma_pow10_eight();
            lemma_scale_bounds(
                self.physical_maximum.mantissa as int,
                self.physical_minimum.mantissa as int,
                p_max as int,
                p_min as int,
                self.digital_maximum - self.digital_minimum,
            );
        }
        let num: i128 = self.physical_maximum.mantissa as i128 * p_min as i128
            - self.physical_minimum.mantissa as i128 * p_max as i128;
        let den: i128 = p_max as i128 * p_min as i128 * (self.digital_maximum as i128
            - self.digital_minimum as i128);
        proof {
            law_scale_factor_finite(*self);
        }
        (num, den)
    }
}

proof fn lemma_scale_bounds(a: int, c: int, pa: int, pc: int, dd: int)
    requires
        -100000000 < a < 100000000,
        -100000000 < c < 100000000,
        1 <= pa <= 100000000,
        1 <= pc <= 100000000,
        -65536 < dd < 65536,
    ensures
        -10000000000000000 <= a * pc <= 10000000000000000,
        -10000000000000000 <= c * pa <= 10000000000000000,
        1 <= pa * pc <= 10000000000000000,
        -655360000000000000000 <= pa * pc * dd <= 655360000000000000000,
{
    assert(-10000000000000000 <= a * pc <= 10000000000000000) by (nonlinear_arith)
        requires
            -100000000 < a < 100000000,
            1 <= pc <= 100000000,
    ;
    assert(-10000000000000000 <= c * pa <= 10000000000000000) by (nonlinear_arith)
        requires
            -100000000 < c < 100000000,
            1 <= pa <= 100000000,
    ;
    assert(1 <= pa * pc <= 10000000000000000) by (nonlinear_arith)
        requires
            1 <= pa <= 100000000,
            1 <= pc <= 100000000,
    ;
    let p = pa * pc;
    assert(-655360000000000000000 <= p * dd <= 655360000000000000000) by (nonlinear_arith)
        requires
            1 <= p <= 10000000000000000,
            -65536 < dd < 65536,
    ;
}

/// For every well-formed channel the scale factor is finite (its
/// denominator is not zero), and it is non-zero exactly when the physical
/// bounds differ.
pub proof fn law_scale_factor_finite(ch: ChannelHeader)
    requires
        ch.wf(),
    ensures
        scale_denominator(ch) != 0,
        scale_numerator(ch) != 0 <==> !same_number(ch.physical_maximum, ch.physical_minimum),
{
    let pa = pow10(ch.physical_maximum.exponent as nat);
    let pc = pow10(ch.physical_minimum.exponent as nat);
    let dd = ch.digital_maximum - ch.digital_minimum;
    lemma_pow10_positive(ch.physical_maximum.exponent as nat);
    lemma_pow10_positive(ch.physical_minimum.exponent as nat);
    assert(pa * pc * dd != 0) by (nonlinear_arith)
        requires
            pa >= 1,
            pc >= 1,
            dd != 0,
    ;
}

} // verus!
