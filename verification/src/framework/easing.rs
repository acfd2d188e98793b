//! Names of the easing curves: those of one argument, and those that
//! take a second, shaping argument.
use vstd::prelude::*;

use crate::framework::text::str_eq;

verus! {

/// An easing curve, by name.
#[derive(Clone, Copy, Debug, PartialEq, Eq, Structural)]
pub enum EasingName {
    Linear,
    EaseIn,
    EaseOut,
    EaseInOut,
    CubicEaseIn,
    CubicEaseOut,
    CubicEaseInOut,
    SineEaseIn,
    SineEaseOut,
    SineEaseInOut,
    Logarithmic,
    Exponential,
    Sigmoid,
}

impl EasingName {
    /// The name of the curve.
    pub open spec fn spec_name(self) -> Seq<char> {
        match self {
            EasingName::Linear => "linear"@,
            EasingName::EaseIn => "ease_in"@,
            EasingName::EaseOut => "ease_out"@,
            EasingName::EaseInOut => "ease_in_out"@,
            EasingName::CubicEaseIn => "cubic_ease_in"@,
            EasingName::CubicEaseOut => "cubic_ease_out"@,
            EasingName::CubicEaseInOut => "cubic_ease_in_out"@,
            EasingName::SineEaseIn => "sine_ease_in"@,
            EasingName::SineEaseOut => "sine_ease_out"@,
            EasingName::SineEaseInOut => "sine_ease_in_out"@,
            EasingName::Logarithmic => "logarithmic"@,
            EasingName::Exponential => "exponential"@,
            EasingName::Sigmoid => "sigmoid"@,
        }
    }

    /// Whether the curve takes a second, shaping argument.
    pub open spec fn spec_takes_shape(self) -> bool {
        self == EasingName::Exponential || self == EasingName::Sigmoid
    }

    /// No two curves share a name.
    pub proof fn lemma_name_injective(a: EasingName, b: EasingName)
        ensures
            a.spec_name() == b.spec_name() ==> a == b,
    {
        reveal_strlit("linear");
        reveal_strlit("ease_in");
        reveal_strlit("ease_out");
        reveal_strlit("ease_in_out");
        reveal_strlit("cubic_ease_in");
        reveal_strlit("cubic_ease_out");
        reveal_strlit("cubic_ease_in_out");
        reveal_strlit("sine_ease_in");
        reveal_strlit("sine_ease_out");
        reveal_strlit("sine_ease_in_out");
        reveal_strlit("logarithmic");
        reveal_strlit("exponential");
        reveal_strlit("sigmoid");
        if a.spec_name() == b.spec_name() {
            let x = a.spec_name();
            let y = b.spec_name();
            assert(x.len() == y.len());
            assert(x[0] == y[0]);
            assert(x[1] == y[1]);
            assert(x[x.len() - 1] == y[y.len() - 1]);
            if x.len() > 8 {
                assert(x[8] == y[8]);
            }
            if x.len() > 12 {
                assert(x[12] == y[12]);
            }
        }
    }

    /// The name of the curve.
    pub fn name(&self) -> (r: String)
        ensures
            r@ == self.spec_name(),
    {
        match self {
            EasingName::Linear => "linear".to_owned(),
            EasingName::EaseIn => "ease_in".to_owned(),
            EasingName::EaseOut => "ease_out".to_owned(),
            EasingName::EaseInOut => "ease_in_out".to_owned(),
            EasingName::CubicEaseIn => "cubic_ease_in".to_owned(),
            EasingName::CubicEaseOut => "cubic_ease_out".to_owned(),
            EasingName::CubicEaseInOut => "cubic_ease_in_out".to_owned(),
            EasingName::SineEaseIn => "sine_ease_in".to_owned(),
            EasingName::SineEaseOut => "sine_ease_out".to_owned(),
            EasingName::SineEaseInOut => "sine_ease_in_out".to_owned(),
            EasingName::Logarithmic => "logarithmic".to_owned(),
            EasingName::Exponential => "exponential".to_owned(),
            EasingName::Sigmoid => "sigmoid".to_owned(),
        }
    }

    /// Whether the curve takes a second, shaping argument.
    pub fn takes_shape(&self) -> (r: bool)
        ensures
            r == self.spec_takes_shape(),
    {
        match self {
            EasingName::Exponential | EasingName::Sigmoid => true,
            _ => false,
        }
    }

    /// The curve that `s` names, if any.
    pub fn from_name(s: &str) -> (r: Option<EasingName>)
        ensures
            forall|t: EasingName| (r == Some(t)) <==> (t.spec_name() == s@),
    {
        let r = if str_eq(s, "linear") {
            Some(EasingName::Linear)
        } else if str_eq(s, "ease_in") {
            Some(EasingName::EaseIn)
        } else if str_eq(s, "ease_out") {
            Some(EasingName::EaseOut)
        } else if str_eq(s, "ease_in_out") {
            Some(EasingName::EaseInOut)
        } else if str_eq(s, "cubic_ease_in") {
            Some(EasingName::CubicEaseIn)
        } else if str_eq(s, "cubic_ease_out") {
            Some(EasingName::CubicEaseOut)
        } else if str_eq(s, "cubic_ease_in_out") {
            Some(EasingName::CubicEaseInOut)
        } else if str_eq(s, "sine_ease_in") {
            Some(EasingName::SineEaseIn)
        } else if str_eq(s, "sine_ease_out") {
            Some(EasingName::SineEaseOut)
        } else if str_eq(s, "sine_ease_in_out") {
            Some(EasingName::SineEaseInOut)
        } else if str_eq(s, "logarithmic") {
            Some(EasingName::Logarithmic)
        } else if str_eq(s, "exponential") {
            Some(EasingName::Exponential)
        } else if str_eq(s, "sigmoid") {
            Some(EasingName::Sigmoid)
        } else {
            None
        };
        proof {
            assert forall|t: EasingName| (r == Some(t)) <==> (t.spec_name() == s@) by {
                if let Some(u) = r {
                    EasingName::lemma_name_injective(t, u);
                }
            }
        }
        r
    }

    /// The curve of one argument that `s` names: a curve that takes a
    /// shaping argument cannot be used where only one argument is passed.
    pub fn unary_from_name(s: &str) -> (r: Option<EasingName>)
        ensures
            forall|t: EasingName| (r == Some(t)) <==> (t.spec_name() == s@ && !t.spec_takes_shape()),
    {
        match EasingName::from_name(s) {
            Some(t) => if t.takes_shape() {
                None
            } else {
                Some(t)
            },
            None => None,
        }
    }
}

} // verus!
