//! Parameter values of control-script nodes.
use vstd::prelude::*;

use super::text::{chars_of, slice_of, string_from_chars};

verus! {

/// A parameter of a node: either a fixed ("cold") value, or a reference to
/// another node whose value is substituted at evaluation time ("hot").
///
/// The cold payload is generic: the framework instantiates it with its
/// numeric sample type.
#[derive(Debug)]
pub enum ParamValue<C> {
    Cold(C),
    Hot(String),
}

/// The parameters of one node, by parameter name.
pub type Node<C> = Vec<(String, ParamValue<C>)>;

impl<C> ParamValue<C> {
    /// Whether this parameter refers to another node.
    pub fn is_hot(&self) -> (r: bool)
        ensures
            r == (self is Hot),
    {
        match self {
            ParamValue::Hot(_) => true,
            ParamValue::Cold(_) => false,
        }
    }

    /// The fixed value of a parameter whose references have been resolved.
    pub fn as_cold(&self) -> (r: &C)
        requires
            self is Cold,
        ensures
            *r == self->Cold_0,
    {
        match self {
            ParamValue::Cold(x) => x,
            ParamValue::Hot(_) => vstd::pervasive::unreached(),
        }
    }

    /// The parameter written as the string `s`: `$name` refers to the node
    /// `name`; any other string is refused.
    pub fn from_reference(s: &str) -> (r: Result<ParamValue<C>, String>)
        ensures
            match r {
                Ok(p) => is_reference(s@) && (p matches ParamValue::Hot(name) && name@ == s@.skip(1)),
                Err(m) => !is_reference(s@) && m@ == reference_error(s@),
            },
    {
        let cs = chars_of(s);
        if cs.len() > 0 && cs[0] == '$' {
            let rest = slice_of(&cs, 1, cs.len());
            let name = string_from_chars(rest.as_slice());
            proof {
                assert(cs@.subrange(1, cs@.len() as int) =~= s@.skip(1));
            }
            Ok(ParamValue::Hot(name))
        } else {
            let head = "Expected number or string starting with '$', got '".to_owned();
            let with_value = head.concat(s);
            Err(with_value.concat("'"))
        }
    }
}

/// Whether a string names another node: it starts with `$`.
pub open spec fn is_reference(s: Seq<char>) -> bool {
    s.len() > 0 && s[0] == '$'
}

/// The message for a string parameter that names no node.
pub open spec fn reference_error(s: Seq<char>) -> Seq<char> {
    "Expected number or string starting with '$', got '"@ + s + "'"@
}

} // verus!
