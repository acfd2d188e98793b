//! Names and defaults of the control configuration format: the `type` of
//! each control, the defaults of optional fields, and the `disabled`
//! expressions of UI controls.
use vstd::prelude::*;

use crate::framework::disabled::{self, expr_spec, invalid_message, symbolic_model, CondModel, DisabledExpr, DisabledSyntax};
use crate::framework::text::str_eq;

verus! {

/// The `type` of a control in a configuration file.
#[derive(Clone, Copy, Debug, PartialEq, Eq, Structural)]
pub enum ControlType {
    Slider,
    Checkbox,
    Select,
    Separator,
    Midi,
    Osc,
    Audio,
    Triangle,
    Automate,
    Random,
    RandomSlewed,
    Modulation,
    Effects,
}

impl ControlType {
    /// The name that selects this type in a configuration file.
    pub open spec fn spec_name(self) -> Seq<char> {
        match self {
            ControlType::Slider => "slider"@,
            ControlType::Checkbox => "checkbox"@,
            ControlType::Select => "select"@,
            ControlType::Separator => "separator"@,
            ControlType::Midi => "midi"@,
            ControlType::Osc => "osc"@,
            ControlType::Audio => "audio"@,
            ControlType::Triangle => "triangle"@,
            ControlType::Automate => "automate"@,
            ControlType::Random => "random"@,
            ControlType::RandomSlewed => "random_slewed"@,
            ControlType::Modulation => "mod"@,
            ControlType::Effects => "effect"@,
        }
    }

    /// No two types share a name.
    pub proof fn lemma_name_injective(a: ControlType, b: ControlType)
        ensures
            a.spec_name() == b.spec_name() ==> a == b,
    {
        reveal_strlit("slider");
        reveal_strlit("checkbox");
        reveal_strlit("select");
        reveal_strlit("separator");
        reveal_strlit("midi");
        reveal_strlit("osc");
        reveal_strlit("audio");
        reveal_strlit("triangle");
        reveal_strlit("automate");
        reveal_strlit("random");
        reveal_strlit("random_slewed");
        reveal_strlit("mod");
        reveal_strlit("effect");
        if a.spec_name() == b.spec_name() {
            assert(a.spec_name().len() == b.spec_name().len());
            assert(a.spec_name()[0] == b.spec_name()[0]);
            assert(a.spec_name()[a.spec_name().len() - 1] == b.spec_name()[b.spec_name().len() - 1]);
        }
    }

    /// The name that selects this type in a configuration file.
    pub fn name(&self) -> (r: String)
        ensures
            r@ == self.spec_name(),
    {
        match self {
            ControlType::Slider => "slider".to_owned(),
            ControlType::Checkbox => "checkbox".to_owned(),
            ControlType::Select => "select".to_owned(),
            ControlType::Separator => "separator".to_owned(),
            ControlType::Midi => "midi".to_owned(),
            ControlType::Osc => "osc".to_owned(),
            ControlType::Audio => "audio".to_owned(),
            ControlType::Triangle => "triangle".to_owned(),
            ControlType::Automate => "automate".to_owned(),
            ControlType::Random => "random".to_owned(),
            ControlType::RandomSlewed => "random_slewed".to_owned(),
            ControlType::Modulation => "mod".to_owned(),
            ControlType::Effects => "effect".to_owned(),
        }
    }

    /// The type that `s` names, if any.
    pub fn from_name(s: &str) -> (r: Option<ControlType>)
        ensures
            forall|t: ControlType| (r == Some(t)) <==> (t.spec_name() == s@),
    {
        let r = if str_eq(s, "slider") {
            Some(ControlType::Slider)
        } else if str_eq(s, "checkbox") {
            Some(ControlType::Checkbox)
        } else if str_eq(s, "select") {
            Some(ControlType::Select)
        } else if str_eq(s, "separator") {
            Some(ControlType::Separator)
        } else if str_eq(s, "midi") {
            Some(ControlType::Midi)
        } else if str_eq(s, "osc") {
            Some(ControlType::Osc)
        } else if str_eq(s, "audio") {
            Some(ControlType::Audio)
        } else if str_eq(s, "triangle") {
            Some(ControlType::Triangle)
        } else if str_eq(s, "automate") {
            Some(ControlType::Automate)
        } else if str_eq(s, "random") {
            Some(ControlType::Random)
        } else if str_eq(s, "random_slewed") {
            Some(ControlType::RandomSlewed)
        } else if str_eq(s, "mod") {
            Some(ControlType::Modulation)
        } else if str_eq(s, "effect") {
            Some(ControlType::Effects)
        } else {
            None
        };
        proof {
            assert forall|t: ControlType| (r == Some(t)) <==> (t.spec_name() == s@) by {
                if let Some(u) = r {
                    ControlType::lemma_name_injective(t, u);
                }
            }
        }
        r
    }
}

/// The default number of wave-folder iterations.
pub fn default_iterations() -> (r: usize)
    ensures
        r == 1,
{
    1
}

/// The default playback mode of an automation.
pub fn default_mode() -> (r: String)
    ensures
        r@ == "loop"@,
{
    "loop".to_owned()
}

/// The default easing of a ramp.
pub fn default_easing() -> (r: String)
    ensures
        r@ == "linear"@,
{
    "linear".to_owned()
}

/// The default shape of a wave.
pub fn default_shape() -> (r: String)
    ensures
        r@ == "sine"@,
{
    "sine".to_owned()
}

/// The default constraint of a wave: none.
pub fn default_none_string() -> (r: String)
    ensures
        r@ == "none"@,
{
    "none".to_owned()
}

/// The default mode of a constrain effect.
pub fn default_clamp_string() -> (r: String)
    ensures
        r@ == "clamp"@,
{
    "clamp".to_owned()
}

/// The default of an optional flag.
pub fn default_false() -> (r: bool)
    ensures
        !r,
{
    false
}

/// Parses the `cond` of a `disabled` field, written with `||`, `&&`, `!`,
/// `!=` and `==`: `Ok(None)` for a blank expression, `Err` with a message
/// naming the first malformed condition.
pub fn parse_disabled_expression(expr: &str) -> (r: Result<Option<DisabledExpr>, String>)
    ensures
        match r {
            Ok(None) => expr_spec(symbolic_model(), expr@) == Ok::<Option<Seq<Seq<CondModel>>>, Seq<char>>(None),
            Ok(Some(x)) => expr_spec(symbolic_model(), expr@) == Ok::<Option<Seq<Seq<CondModel>>>, Seq<char>>(
                Some(x.model()),
            ),
            Err(m) => expr_spec(symbolic_model(), expr@) matches Err(t) && m@ == invalid_message(t),
        },
{
    let syn = DisabledSyntax::symbolic();
    disabled::parse_disabled_expression(&syn, expr)
}

} // verus!
