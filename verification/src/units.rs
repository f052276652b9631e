//! Bounded user scores and attribute weights.

use vstd::prelude::*;
use vstd::std_specs::convert::TryFromSpecImpl;

verus! {

/// Lowest score a user may give an attribute.
pub const SCORE_MIN: i64 = 1;
/// Highest score a user may give an attribute.
pub const SCORE_MAX: i64 = 10;
/// Lowest weight of an attribute.
pub const WEIGHT_MIN: i64 = 0;
/// Highest weight of an attribute.
pub const WEIGHT_MAX: i64 = 100;

/// A user's score of one attribute of a project, in `1..=10`.
#[derive(Debug, Clone, Copy, PartialEq, Eq, Structural, PartialOrd, Ord)]
pub struct Score(u8);

/// The weight that the configuration gives an attribute, in `0..=100`.
#[derive(Debug, Clone, Copy, PartialEq, Eq, Structural, PartialOrd, Ord)]
pub struct Weight(u8);

/// The message of a score outside `1..=10`.
pub open spec fn score_range_message() -> Seq<char> {
    "value must be 1..=10"@
}

/// The message of a weight outside `0..=100`.
pub open spec fn weight_range_message() -> Seq<char> {
    "value must be 0..=100"@
}

impl Score {
    /// The number that the score stands for.
    pub closed spec fn spec_value(self) -> u8 {
        self.0
    }

    /// Every score lies in `1..=10`.
    #[verifier::type_invariant]
    pub closed spec fn valid(self) -> bool {
        SCORE_MIN <= self.0 <= SCORE_MAX
    }

    /// The number that the score stands for.
    pub fn value(&self) -> (r: u8)
        ensures
            r == self.spec_value(),
            SCORE_MIN <= r <= SCORE_MAX,
    {
        proof {
            use_type_invariant(self);
        }
        self.0
    }

    /// What `try_from` makes of `value`.
    pub open spec fn from_spec(value: i64) -> Result<Score, &'static str> {
        if SCORE_MIN <= value <= SCORE_MAX {
            Ok(Score::make(value as u8))
        } else {
            Err("value must be 1..=10")
        }
    }

    /// The score that stands for `v`.
    pub closed spec fn make(v: u8) -> Score {
        Score(v)
    }

    /// A score made of `v` stands for `v`.
    pub proof fn lemma_make(v: u8)
        ensures
            Score::make(v).spec_value() == v,
            SCORE_MIN <= v <= SCORE_MAX ==> Score::make(v).valid(),
    {
    }

    /// Every score that `try_from` hands out lies in `1..=10`, and
    /// `try_from` takes back any number that a score stands for.
    pub proof fn lemma_range(s: Score)
        requires
            s.valid(),
        ensures
            SCORE_MIN <= s.spec_value() <= SCORE_MAX,
            Score::from_spec(s.spec_value() as i64) == Ok::<Score, &'static str>(s),
    {
    }
}

impl Weight {
    /// The number that the weight stands for.
    pub closed spec fn spec_value(self) -> u8 {
        self.0
    }

    /// Every weight lies in `0..=100`.
    #[verifier::type_invariant]
    pub closed spec fn valid(self) -> bool {
        self.0 <= WEIGHT_MAX
    }

    /// The number that the weight stands for.
    pub fn value(&self) -> (r: u8)
        ensures
            r == self.spec_value(),
            r <= WEIGHT_MAX,
    {
        proof {
            use_type_invariant(self);
        }
        self.0
    }

    /// What `try_from` makes of `value`.
    pub open spec fn from_spec(value: i64) -> Result<Weight, &'static str> {
        if WEIGHT_MIN <= value <= WEIGHT_MAX {
            Ok(Weight::make(value as u8))
        } else {
            Err("value must be 0..=100")
        }
    }

    /// The weight that stands for `v`.
    pub closed spec fn make(v: u8) -> Weight {
        Weight(v)
    }

    /// A weight made of `v` stands for `v`.
    pub proof fn lemma_make(v: u8)
        ensures
            Weight::make(v).spec_value() == v,
            v <= WEIGHT_MAX ==> Weight::make(v).valid(),
    {
    }

    /// Every weight that `try_from` hands out lies in `0..=100`, and
    /// `try_from` takes back any number that a weight stands for.
    pub proof fn lemma_range(w: Weight)
        requires
            w.valid(),
        ensures
            w.spec_value() <= WEIGHT_MAX,
            Weight::from_spec(w.spec_value() as i64) == Ok::<Weight, &'static str>(w),
    {
    }
}

impl TryFrom<i64> for Score {
    type Error = &'static str;

    fn try_from(value: i64) -> (r: Result<Self, Self::Error>)
        ensures
            r is Ok <==> SCORE_MIN <= value <= SCORE_MAX,
            r matches Ok(s) ==> s.spec_value() == value,
            r matches Err(e) ==> e@ == score_range_message(),
    {
        if !(SCORE_MIN <= value && value <= SCORE_MAX) {
            return Err("value must be 1..=10");
        }
        match u8::try_from(value) {
            Ok(v) => Ok(Score(v)),
            Err(_) => Err("should never happen: value validated to be 1..=10"),
        }
    }
}

impl TryFromSpecImpl<i64> for Score {
    open spec fn obeys_try_from_spec() -> bool {
        true
    }

    open spec fn try_from_spec(value: i64) -> Result<Self, Self::Error> {
        Score::from_spec(value)
    }
}

impl TryFrom<i64> for Weight {
    type Error = &'static str;

    fn try_from(value: i64) -> (r: Result<Self, Self::Error>)
        ensures
            r is Ok <==> WEIGHT_MIN <= value <= WEIGHT_MAX,
            r matches Ok(w) ==> w.spec_value() == value,
            r matches Err(e) ==> e@ == weight_range_message(),
    {
        if !(WEIGHT_MIN <= value && value <= WEIGHT_MAX) {
            return Err("value must be 0..=100");
        }
        match u8::try_from(value) {
            Ok(v) => Ok(Weight(v)),
            Err(_) => Err("should never happen: value validated to be 0..=100"),
        }
    }
}

impl TryFromSpecImpl<i64> for Weight {
    open spec fn obeys_try_from_spec() -> bool {
        true
    }

    open spec fn try_from_spec(value: i64) -> Result<Self, Self::Error> {
        Weight::from_spec(value)
    }
}

/// The contribution of one attribute to a project's total: score times weight.
pub fn mult_score_weight(score: Score, weight: Weight) -> (r: u32)
    ensures
        r == score.spec_value() * weight.spec_value(),
        r <= SCORE_MAX * WEIGHT_MAX,
{
    proof {
        use_type_invariant(&score);
        use_type_invariant(&weight);
    }
    let s: u32 = score.0 as u32;
    let w: u32 = weight.0 as u32;
    assert(s * w <= 1000) by (nonlinear_arith)
        requires
            s <= 10,
            w <= 100,
    ;
    s * w
}

} // verus!
