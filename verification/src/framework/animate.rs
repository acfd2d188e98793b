//! Names used by breakpoint animations: wave shapes, playback modes and
//! constraint methods.
use vstd::prelude::*;

use crate::framework::text::chars_of;

verus! {

/// The shape of the modulation wave of a wave breakpoint.
#[derive(Clone, Copy, Debug, PartialEq, Eq, Structural)]
pub enum Shape {
    Sine,
    Triangle,
    Square,
}

/// Whether an animation repeats after its last breakpoint or holds.
#[derive(Clone, Copy, Debug, PartialEq, Eq, Structural)]
pub enum Mode {
    Loop,
    Once,
}

/// How a wave breakpoint keeps its output within a range.
#[derive(Clone, Copy, Debug, PartialEq, Eq, Structural)]
pub enum ConstrainMethod {
    Unconstrained,
    Clamp,
    Fold,
    Wrap,
}

/// `c` with ASCII capitals made small.
pub open spec fn ascii_lower(c: char) -> char {
    if 'A' <= c && c <= 'Z' {
        (((c as u32) + 32) as u8) as char
    } else {
        c
    }
}

/// `s` with ASCII capitals made small.
pub open spec fn lower(s: Seq<char>) -> Seq<char> {
    s.map_values(|c: char| ascii_lower(c))
}

fn to_ascii_lower(c: char) -> (r: char)
    ensures
        r == ascii_lower(c),
{
    if 'A' <= c && c <= 'Z' {
        let x: u32 = c as u32;
        let y: u8 = (x + 32) as u8;
        y as char
    } else {
        c
    }
}

/// Whether `s`, with ASCII capitals made small, is `word`.
///
/// For the lowercase ASCII words this module compares with, none of which
/// holds a `k`, this is also whether the Unicode lowercase of `s` is
/// `word`: the only other characters whose lowercase is ASCII are the
/// Kelvin sign, which lowercases to `k`, and the capital I with dot above,
/// which lowercases to two characters.
fn lower_is(s: &str, word: &str) -> (r: bool)
    ensures
        r == (lower(s@) == word@),
{
    let a = chars_of(s);
    let b = chars_of(word);
    if a.len() != b.len() {
        proof {
            assert(lower(s@).len() != word@.len());
        }
        return false;
    }
    let mut i: usize = 0;
    while i < a.len()
        invariant
            0 <= i <= a.len(),
            a.len() == b.len(),
            a@ == s@,
            b@ == word@,
            forall|k: int| 0 <= k < i ==> ascii_lower(#[trigger] a@[k]) == b@[k],
        decreases a.len() - i,
    {
        if to_ascii_lower(a[i]) != b[i] {
            proof {
                assert(lower(s@)[i as int] != word@[i as int]);
            }
            return false;
        }
        i = i + 1;
    }
    proof {
        assert(lower(s@) =~= word@);
    }
    true
}

impl Shape {
    /// The name of the shape.
    pub open spec fn spec_name(self) -> Seq<char> {
        match self {
            Shape::Sine => "sine"@,
            Shape::Triangle => "triangle"@,
            Shape::Square => "square"@,
        }
    }

    /// No two shapes share a name.
    pub proof fn lemma_name_injective(a: Shape, b: Shape)
        ensures
            a.spec_name() == b.spec_name() ==> a == b,
    {
        reveal_strlit("sine");
        reveal_strlit("triangle");
        reveal_strlit("square");
        if a.spec_name() == b.spec_name() {
            assert(a.spec_name()[0] == b.spec_name()[0]);
            assert(a.spec_name().len() == b.spec_name().len());
        }
    }

    /// The shape that `s` names, ignoring case.
    pub fn parse(s: &str) -> (r: Option<Shape>)
        ensures
            forall|t: Shape| (r == Some(t)) <==> (t.spec_name() == lower(s@)),
    {
        let r = if lower_is(s, "sine") {
            Some(Shape::Sine)
        } else if lower_is(s, "triangle") {
            Some(Shape::Triangle)
        } else if lower_is(s, "square") {
            Some(Shape::Square)
        } else {
            None
        };
        proof {
            assert forall|t: Shape| (r == Some(t)) <==> (t.spec_name() == lower(s@)) by {
                if let Some(u) = r {
                    Shape::lemma_name_injective(t, u);
                }
            }
        }
        r
    }

    /// The shape that `s` names, ignoring case; `s` must name one.
    pub fn from_str(s: &str) -> (r: Shape)
        requires
            exists|t: Shape| t.spec_name() == lower(s@),
        ensures
            r.spec_name() == lower(s@),
    {
        match Shape::parse(s) {
            Some(t) => t,
            None => {
                proof {
                    let t = choose|t: Shape| t.spec_name() == lower(s@);
                    assert(t.spec_name() == lower(s@));
                }
                vstd::pervasive::unreached()
            },
        }
    }
}

impl ConstrainMethod {
    /// The name of the method.
    pub open spec fn spec_name(self) -> Seq<char> {
        match self {
            ConstrainMethod::Unconstrained => "none"@,
            ConstrainMethod::Clamp => "clamp"@,
            ConstrainMethod::Fold => "fold"@,
            ConstrainMethod::Wrap => "wrap"@,
        }
    }

    /// No two methods share a name.
    pub proof fn lemma_name_injective(a: ConstrainMethod, b: ConstrainMethod)
        ensures
            a.spec_name() == b.spec_name() ==> a == b,
    {
        reveal_strlit("none");
        reveal_strlit("clamp");
        reveal_strlit("fold");
        reveal_strlit("wrap");
        if a.spec_name() == b.spec_name() {
            assert(a.spec_name()[0] == b.spec_name()[0]);
        }
    }

    /// The method that `s` names, ignoring case.
    pub fn parse(s: &str) -> (r: Option<ConstrainMethod>)
        ensures
            forall|t: ConstrainMethod| (r == Some(t)) <==> (t.spec_name() == lower(s@)),
    {
        let r = if lower_is(s, "none") {
            Some(ConstrainMethod::Unconstrained)
        } else if lower_is(s, "clamp") {
            Some(ConstrainMethod::Clamp)
        } else if lower_is(s, "fold") {
            Some(ConstrainMethod::Fold)
        } else if lower_is(s, "wrap") {
            Some(ConstrainMethod::Wrap)
        } else {
            None
        };
        proof {
            assert forall|t: ConstrainMethod| (r == Some(t)) <==> (t.spec_name() == lower(s@)) by {
                if let Some(u) = r {
                    ConstrainMethod::lemma_name_injective(t, u);
                }
            }
        }
        r
    }
}

} // verus!
