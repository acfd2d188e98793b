//! Names and defaults of the control-script configuration format.
use vstd::prelude::*;

use crate::framework::text::str_eq;

verus! {

/// The `type` of a control in a control script.
#[derive(Clone, Copy, Debug, PartialEq, Eq, Structural)]
pub enum ControlType {
    Slider,
    Checkbox,
    Select,
    Separator,
    Osc,
    Audio,
    LerpAbs,
    LerpRel,
    RRampRel,
    Triangle,
    Automate,
    Modulation,
    Effects,
}

impl ControlType {
    /// The name that selects this type in a control script.
    pub open spec fn spec_name(self) -> Seq<char> {
        match self {
            ControlType::Slider => "slider"@,
            ControlType::Checkbox => "checkbox"@,
            ControlType::Select => "select"@,
            ControlType::Separator => "separator"@,
            ControlType::Osc => "osc"@,
            ControlType::Audio => "audio"@,
            ControlType::LerpAbs => "lerp_abs"@,
            ControlType::LerpRel => "lerp_rel"@,
            ControlType::RRampRel => "r_ramp_rel"@,
            ControlType::Triangle => "triangle"@,
            ControlType::Automate => "automate"@,
            ControlType::Modulation => "mod"@,
            ControlType::Effects => "effect"@,
        }
    }

    /// No two types share a name.
    pub proof fn lemma_name_injective(a: ControlType, b: ControlType)
        ensures
            a.spec_name() == b.spec_name() ==> a == b,
    {
        reveal_strlit("slider");
        reveal_strlit("checkbox");
        reveal_strlit("select");
        reveal_strlit("separator");
        reveal_strlit("osc");
        reveal_strlit("audio");
        reveal_strlit("lerp_abs");
        reveal_strlit("lerp_rel");
        reveal_strlit("r_ramp_rel");
        reveal_strlit("triangle");
        reveal_strlit("automate");
        reveal_strlit("mod");
        reveal_strlit("effect");
        if a.spec_name() == b.spec_name() {
            assert(a.spec_name().len() == b.spec_name().len());
            assert(a.spec_name()[0] == b.spec_name()[0]);
            assert(a.spec_name()[1] == b.spec_name()[1]);
            assert(a.spec_name()[a.spec_name().len() - 1] == b.spec_name()[b.spec_name().len() - 1]);
        }
    }

    /// The name that selects this type in a control script.
    pub fn name(&self) -> (r: String)
        ensures
            r@ == self.spec_name(),
    {
        match self {
            ControlType::Slider => "slider".to_owned(),
            ControlType::Checkbox => "checkbox".to_owned(),
            ControlType::Select => "select".to_owned(),
            ControlType::Separator => "separator".to_owned(),
            ControlType::Osc => "osc".to_owned(),
            ControlType::Audio => "audio".to_owned(),
            ControlType::LerpAbs => "lerp_abs".to_owned(),
            ControlType::LerpRel => "lerp_rel".to_owned(),
            ControlType::RRampRel => "r_ramp_rel".to_owned(),
            ControlType::Triangle => "triangle".to_owned(),
            ControlType::Automate => "automate".to_owned(),
            ControlType::Modulation => "mod".to_owned(),
            ControlType::Effects => "effect".to_owned(),
        }
    }

    /// The type that `s` names, if any.
    pub fn from_name(s: &str) -> (r: Option<ControlType>)
        ensures
            forall|t: ControlType| (r == Some(t)) <==> (t.spec_name() == s@),
    {
        let r = if str_eq(s, "slider") {
            Some(ControlType::Slider)
        } else if str_eq(s, "checkbox") {
            Some(ControlType::Checkbox)
        } else if str_eq(s, "select") {
            Some(ControlType::Select)
        } else if str_eq(s, "separator") {
            Some(ControlType::Separator)
        } else if str_eq(s, "osc") {
            Some(ControlType::Osc)
        } else if str_eq(s, "audio") {
            Some(ControlType::Audio)
        } else if str_eq(s, "lerp_abs") {
            Some(ControlType::LerpAbs)
        } else if str_eq(s, "lerp_rel") {
            Some(ControlType::LerpRel)
        } else if str_eq(s, "r_ramp_rel") {
            Some(ControlType::RRampRel)
        } else if str_eq(s, "triangle") {
            Some(ControlType::Triangle)
        } else if str_eq(s, "automate") {
            Some(ControlType::Automate)
        } else if str_eq(s, "mod") {
            Some(ControlType::Modulation)
        } else if str_eq(s, "effect") {
            Some(ControlType::Effects)
        } else {
            None
        };
        proof {
            assert forall|t: ControlType| (r == Some(t)) <==> (t.spec_name() == s@) by {
                if let Some(u) = r {
                    ControlType::lemma_name_injective(t, u);
                }
            }
        }
        r
    }
}

/// The default easing of a ramp.
pub fn default_ramp() -> (r: String)
    ensures
        r@ == "linear"@,
{
    "linear".to_owned()
}
/// The default number of wave-folder iterations.
pub fn default_iterations() -> (r: usize)
    ensures
        r == 1,
{
    1
}

/// The default playback mode of an automation.
pub fn default_mode() -> (r: String)
    ensures
        r@ == "loop"@,
{
    "loop".to_owned()
}

/// The default easing of a ramp.
pub fn default_easing() -> (r: String)
    ensures
        r@ == "linear"@,
{
    "linear".to_owned()
}

/// The default shape of a wave.
pub fn default_shape() -> (r: String)
    ensures
        r@ == "sine"@,
{
    "sine".to_owned()
}

/// The default constraint of a wave: none.
pub fn default_none_string() -> (r: String)
    ensures
        r@ == "none"@,
{
    "none".to_owned()
}

/// The default of an optional flag.
pub fn default_false() -> (r: bool)
    ensures
        !r,
{
    false
}

} // verus!
