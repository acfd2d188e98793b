//! Names used by effects: the operator of a math effect.
use vstd::prelude::*;

use crate::framework::text::str_eq;

verus! {

/// The operation a math effect applies between its operand and its input.
#[derive(Clone, Copy, Debug, PartialEq, Eq, Structural)]
pub enum Operator {
    Add,
    Mult,
}

/// The message for a name that is no operator.
pub open spec fn no_op_message(s: Seq<char>) -> Seq<char> {
    "No op named "@ + s
}

impl Operator {
    /// The name of the operator.
    pub open spec fn spec_name(self) -> Seq<char> {
        match self {
            Operator::Add => "add"@,
            Operator::Mult => "mult"@,
        }
    }

    /// The operator that `s` names exactly, or the message naming `s`.
    pub fn parse(s: &str) -> (r: Result<Operator, String>)
        ensures
            match r {
                Ok(op) => op.spec_name() == s@,
                Err(m) => (forall|op: Operator| op.spec_name() != s@) && m@ == no_op_message(s@),
            },
    {
        if str_eq(s, "add") {
            Ok(Operator::Add)
        } else if str_eq(s, "mult") {
            Ok(Operator::Mult)
        } else {
            let head = "No op named ".to_owned();
            Err(head.concat(s))
        }
    }
}

impl std::str::FromStr for Operator {
    type Err = String;

    fn from_str(s: &str) -> (r: Result<Self, Self::Err>)
        ensures
            match r {
                Ok(op) => op.spec_name() == s@,
                Err(m) => (forall|op: Operator| op.spec_name() != s@) && m@ == no_op_message(s@),
            },
    {
        Operator::parse(s)
    }
}

} // verus!
