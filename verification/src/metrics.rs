use crate::errors::ValidationError;
use vstd::prelude::*;

verus! {

/// Fewest repetitions for which the estimate is defined.
pub const MIN_REPS: i16 = 1;

/// Most repetitions for which the estimate is defined.
pub const MAX_REPS: i16 = 36;

/// The repetition counts the estimate accepts.
pub open spec fn reps_in_range(reps: int) -> bool {
    1 <= reps <= 36
}

/// An estimated one-rep max, held exactly as a fraction with a positive
/// denominator. Two values are `==` when numerator and denominator agree;
/// `same_value` compares the numbers they stand for.
#[derive(Clone, Copy, Debug, PartialEq, Eq, Structural)]
pub struct OneRepMax {
    numerator: i64,
    denominator: i64,
}

impl OneRepMax {
    pub closed spec fn num(self) -> int {
        self.numerator as int
    }

    pub closed spec fn den(self) -> int {
        self.denominator as int
    }

    /// The denominator is positive.
    pub open spec fn wf(self) -> bool {
        self.den() > 0
    }

    /// `self` stands for a strictly larger number than `other`.
    pub open spec fn is_above(self, other: OneRepMax) -> bool {
        self.num() * other.den() > other.num() * self.den()
    }

    /// `self` and `other` stand for the same number.
    pub open spec fn same_value(self, other: OneRepMax) -> bool {
        self.num() * other.den() == other.num() * self.den()
    }

    /// `self` stands for a number no smaller than `other`.
    pub open spec fn at_least(self, other: OneRepMax) -> bool {
        self.is_above(other) || self.same_value(other)
    }

    /// Of two proper fractions one is above the other or they are the same
    /// number, and only one of the three holds.
    pub proof fn lemma_order_total(self, other: OneRepMax)
        ensures
            self.is_above(other) || self.same_value(other) || other.is_above(self),
            !(self.is_above(other) && other.is_above(self)),
            !(self.is_above(other) && self.same_value(other)),
            self.same_value(other) == other.same_value(self),
    {
    }

    /// The order of proper fractions carries over a middle one, strictly
    /// where either step is strict.
    pub proof fn lemma_order_transitive(self, middle: OneRepMax, other: OneRepMax)
        requires
            self.wf(),
            middle.wf(),
            other.wf(),
            self.at_least(middle),
            middle.at_least(other),
        ensures
            self.at_least(other),
            self.is_above(middle) || middle.is_above(other) ==> self.is_above(other),
            self.same_value(middle) && middle.same_value(other) ==> self.same_value(other),
    {
        let (an, ad) = (self.num(), self.den());
        let (bn, bd) = (middle.num(), middle.den());
        let (cn, cd) = (other.num(), other.den());
        assert((an * bd) * cd >= (bn * ad) * cd) by (nonlinear_arith)
            requires
                an * bd >= bn * ad,
                cd > 0,
        ;
        assert((bn * cd) * ad >= (cn * bd) * ad) by (nonlinear_arith)
            requires
                bn * cd >= cn * bd,
                ad > 0,
        ;
        assert((bn * ad) * cd == (bn * cd) * ad) by (nonlinear_arith);
        assert((an * bd) * cd == (an * cd) * bd) by (nonlinear_arith);
        assert((cn * bd) * ad == (cn * ad) * bd) by (nonlinear_arith);
        assert(an * cd >= cn * ad) by (nonlinear_arith)
            requires
                (an * cd) * bd >= (cn * ad) * bd,
                bd > 0,
        ;
        if self.is_above(middle) {
            assert((an * bd) * cd > (bn * ad) * cd) by (nonlinear_arith)
                requires
                    an * bd > bn * ad,
                    cd > 0,
            ;
            assert(an * cd > cn * ad) by (nonlinear_arith)
                requires
                    (an * cd) * bd > (cn * ad) * bd,
                    bd > 0,
            ;
        }
        if middle.is_above(other) {
            assert((bn * cd) * ad > (cn * bd) * ad) by (nonlinear_arith)
                requires
                    bn * cd > cn * bd,
                    ad > 0,
            ;
            assert(an * cd > cn * ad) by (nonlinear_arith)
                requires
                    (an * cd) * bd > (cn * ad) * bd,
                    bd > 0,
            ;
        }
        if self.same_value(middle) && middle.same_value(other) {
            assert(an * cd == cn * ad) by (nonlinear_arith)
                requires
                    (an * cd) * bd == (cn * ad) * bd,
                    bd > 0,
            ;
        }
    }

    /// The estimate for one set: `36 * weight / (37 - reps)`.
    pub closed spec fn estimate(weight: i16, reps: i16) -> OneRepMax {
        OneRepMax { numerator: (36 * weight) as i64, denominator: (37 - reps) as i64 }
    }

    /// What `estimate` holds.
    pub broadcast proof fn lemma_estimate(weight: i16, reps: i16)
        ensures
            (#[trigger] Self::estimate(weight, reps)).num() == 36 * weight,
            Self::estimate(weight, reps).den() == 37 - reps,
    {
    }

    /// The fraction `numerator / denominator`, where the denominator is positive.
    pub fn new(numerator: i64, denominator: i64) -> (r: Option<OneRepMax>)
        ensures
            r.is_some() <==> denominator > 0,
            r matches Some(v) ==> v.num() == numerator && v.den() == denominator && v.wf(),
    {
        if denominator > 0 {
            Some(OneRepMax { numerator, denominator })
        } else {
            None
        }
    }

    /// The estimate for one set whose repetitions are in range.
    pub fn of_set(weight: i16, reps: i16) -> (r: OneRepMax)
        requires
            reps_in_range(reps as int),
        ensures
            r == Self::estimate(weight, reps),
            r.wf(),
    {
        let w: i64 = weight as i64;
        let d: i64 = reps as i64;
        OneRepMax { numerator: 36 * w, denominator: 37 - d }
    }

    pub fn numerator(&self) -> (n: i64)
        ensures
            n == self.num(),
    {
        self.numerator
    }

    pub fn denominator(&self) -> (d: i64)
        ensures
            d == self.den(),
    {
        self.denominator
    }

    /// Whether `self` is strictly larger than `other`.
    pub fn exceeds(&self, other: &OneRepMax) -> (b: bool)
        ensures
            b == self.is_above(*other),
    {
        let left: i128 = self.cross(other);
        let right: i128 = other.cross(self);
        left > right
    }

    /// Whether `self` and `other` are the same number.
    pub fn equals_value(&self, other: &OneRepMax) -> (b: bool)
        ensures
            b == self.same_value(*other),
    {
        let left: i128 = self.cross(other);
        let right: i128 = other.cross(self);
        left == right
    }

    /// `self`'s numerator times `other`'s denominator.
    fn cross(&self, other: &OneRepMax) -> (p: i128)
        ensures
            p == self.num() * other.den(),
    {
        let a: i128 = self.numerator as i128;
        let b: i128 = other.denominator as i128;
        assert(-0x4000_0000_0000_0000_0000_0000_0000_0000 <= a * b
            <= 0x4000_0000_0000_0000_0000_0000_0000_0000) by (nonlinear_arith)
            requires
                -0x8000_0000_0000_0000 <= a <= 0x8000_0000_0000_0000,
                -0x8000_0000_0000_0000 <= b <= 0x8000_0000_0000_0000,
        ;
        a * b
    }
}

/// The volume of one set: `weight * reps`.
pub open spec fn volume_of(weight: i16, reps: i16) -> int {
    weight * reps
}

/// The volume of one set.
pub fn set_volume(weight: i16, reps: i16) -> (v: i32)
    ensures
        v == volume_of(weight, reps),
{
    let w: i32 = weight as i32;
    let r: i32 = reps as i32;
    assert(-0x4000_0000 <= w * r <= 0x4000_0000) by (nonlinear_arith)
        requires
            -0x8000 <= w <= 0x8000,
            -0x8000 <= r <= 0x8000,
    ;
    w * r
}

/// The estimated one-rep max of a set, refused when the repetitions lie
/// outside `1..=36`, where the formula has no meaning.
pub fn one_rep_max(weight: i16, reps: i16) -> (r: Result<OneRepMax, ValidationError>)
    ensures
        reps_in_range(reps as int) ==> r == Ok::<OneRepMax, ValidationError>(
            OneRepMax::estimate(weight, reps),
        ),
        !reps_in_range(reps as int) ==> r == Err::<OneRepMax, ValidationError>(
            ValidationError::RepsOutOfRange,
        ),
{
    if reps < MIN_REPS || reps > MAX_REPS {
        Err(ValidationError::RepsOutOfRange)
    } else {
        Ok(OneRepMax::of_set(weight, reps))
    }
}

/// With the repetitions fixed, a heavier set has a strictly larger estimate.
pub proof fn lemma_estimate_increases_with_weight(lighter: i16, heavier: i16, reps: i16)
    requires
        lighter < heavier,
        reps_in_range(reps as int),
    ensures
        OneRepMax::estimate(heavier, reps).is_above(OneRepMax::estimate(lighter, reps)),
{
    OneRepMax::lemma_estimate(lighter, reps);
    OneRepMax::lemma_estimate(heavier, reps);
    let d = 37 - reps;
    assert((36 * heavier) * d > (36 * lighter) * d) by (nonlinear_arith)
        requires
            lighter < heavier,
            d > 0,
    ;
}

/// With a positive weight fixed, more repetitions give a strictly larger
/// estimate.
pub proof fn lemma_estimate_increases_with_reps(weight: i16, fewer: i16, more: i16)
    requires
        weight > 0,
        reps_in_range(fewer as int),
        reps_in_range(more as int),
        fewer < more,
    ensures
        OneRepMax::estimate(weight, more).is_above(OneRepMax::estimate(weight, fewer)),
{
    OneRepMax::lemma_estimate(weight, fewer);
    OneRepMax::lemma_estimate(weight, more);
    let n = 36 * weight;
    assert(n * (37 - fewer) > n * (37 - more)) by (nonlinear_arith)
        requires
            n > 0,
            fewer < more,
    ;
}

} // verus!
