use vstd::prelude::*;

verus! {

/// A single ternary digit (trit): -1, 0, or +1.
#[derive(Debug, Clone, Copy, PartialEq, Eq, Hash, PartialOrd, Ord, Structural)]
pub enum Trit {
    NegOne,
    Zero,
    PosOne,
}

impl Trit {
    /// The integer that the trit stands for.
    pub open spec fn value(self) -> int {
        match self {
            Trit::NegOne => -1,
            Trit::Zero => 0,
            Trit::PosOne => 1,
        }
    }

    /// The trit whose value is `v`, if there is one.
    pub open spec fn spec_from_int(v: int) -> Option<Trit> {
        if v == -1 {
            Some(Trit::NegOne)
        } else if v == 0 {
            Some(Trit::Zero)
        } else if v == 1 {
            Some(Trit::PosOne)
        } else {
            None
        }
    }

    /// Converts an integer to a trit; `None` unless it is -1, 0 or 1.
    pub fn from_i8(v: i8) -> (r: Option<Trit>)
        ensures
            r == Trit::spec_from_int(v as int),
            r is Some <==> -1 <= v <= 1,
            r matches Some(t) ==> t.value() == v,
    {
        match v {
            -1 => Some(Trit::NegOne),
            0 => Some(Trit::Zero),
            1 => Some(Trit::PosOne),
            _ => None,
        }
    }

    /// The trit's value as an integer.
    pub fn to_i8(self) -> (r: i8)
        ensures
            r == self.value(),
            -1 <= r <= 1,
    {
        match self {
            Trit::NegOne => -1,
            Trit::Zero => 0,
            Trit::PosOne => 1,
        }
    }
    /// The integer nearest to `v` among -1, 0 and 1.
    pub open spec fn clamp_int(v: int) -> int {
        if v < -1 {
            -1
        } else if v > 1 {
            1
        } else {
            v
        }
    }

    /// The decimal text of the trit's value.
    pub open spec fn text(self) -> Seq<char> {
        match self {
            Trit::NegOne => "-1"@,
            Trit::Zero => "0"@,
            Trit::PosOne => "1"@,
        }
    }

    /// The trit nearest to an integer: values below -1 give `NegOne`, values above 1 give `PosOne`.
    pub fn saturating_from_i8(v: i8) -> (r: Trit)
        ensures
            r.value() == Trit::clamp_int(v as int),
    {
        if v < -1 {
            Trit::NegOne
        } else if v > 1 {
            Trit::PosOne
        } else {
            match v {
                -1 => Trit::NegOne,
                0 => Trit::Zero,
                _ => Trit::PosOne,
            }
        }
    }

    /// The trit's value written in decimal: "-1", "0" or "1".
    pub fn to_string(&self) -> (r: String)
        ensures
            r@ == self.text(),
    {
        match self {
            Trit::NegOne => "-1".to_owned(),
            Trit::Zero => "0".to_owned(),
            Trit::PosOne => "1".to_owned(),
        }
    }
}

/// Converting a trit to its integer and back gives the same trit, and an integer
/// that converts to a trit is that trit's value.
pub proof fn lemma_trit_int_roundtrip(t: Trit, v: int)
    ensures
        Trit::spec_from_int(t.value()) == Some(t),
        Trit::spec_from_int(v) matches Some(u) ==> u.value() == v,
        Trit::spec_from_int(v) is Some <==> -1 <= v <= 1,
{
}

/// Saturating a trit's own value gives that value back, and a value names one trit only,
/// so `saturating_from_i8(t.to_i8())` is `t`.
pub proof fn lemma_saturate_trit_value(t: Trit, u: Trit)
    ensures
        Trit::clamp_int(t.value()) == t.value(),
        u.value() == t.value() ==> u == t,
{
}

/// Saturation gives the trit value nearest to `v`: it is -1, 0 or 1, and no trit's
/// value lies closer to `v`.
pub proof fn lemma_saturate_nearest(v: int, t: Trit)
    ensures
        -1 <= Trit::clamp_int(v) <= 1,
        ({
            let c = Trit::clamp_int(v);
            let d_c = if v >= c { v - c } else { c - v };
            let d_t = if v >= t.value() { v - t.value() } else { t.value() - v };
            d_c <= d_t
        }),
{
}

} // verus!
