//! Expressions that decide when a UI control is disabled, such as
//! `mode != advanced || !enabled` or `mode is not advanced or not enabled`.
//!
//! An expression is a disjunction of conjunctions of conditions; a condition
//! is a negation of a condition, a string comparison of a control's value
//! (equal or not equal), or the boolean value of a control.
use vstd::prelude::*;

use super::named_map::NamedMap;
use super::text::{
    chars_of, contains_seq, find_chars, lemma_trim_end_prefix, lemma_trim_trim_end, split, split_chars,
    starts_with, string_from_chars, strip_prefix_chars, trim, trim_all, trim_chars, trim_end, trim_start, is_ws,
};

verus! {

/// The meaning of a parsed condition.
pub ghost enum CondModel {
    Not(Box<CondModel>),
    NotEquals(Seq<char>, Seq<char>),
    Equals(Seq<char>, Seq<char>),
    Flag(Seq<char>),
}

/// A parsed condition.
pub enum Condition {
    /// Holds when the inner condition does not.
    Not(Box<Condition>),
    /// Holds when the string value of `field` differs from `value`.
    NotEquals { field: String, value: String },
    /// Holds when the string value of `field` is `value`.
    Equals { field: String, value: String },
    /// Holds when the boolean value of `field` is true.
    Flag { field: String },
}

impl Condition {
    pub open spec fn model(self) -> CondModel
        decreases self,
    {
        match self {
            Condition::Not(inner) => CondModel::Not(Box::new((*inner).model())),
            Condition::NotEquals { field, value } => CondModel::NotEquals(field@, value@),
            Condition::Equals { field, value } => CondModel::Equals(field@, value@),
            Condition::Flag { field } => CondModel::Flag(field@),
        }
    }
}

/// The separators and operators of an expression language.
pub struct DisabledSyntax {
    pub or_sep: Vec<char>,
    pub and_sep: Vec<char>,
    pub not_prefix: Vec<char>,
    pub not_equals: Vec<char>,
    pub equals: Vec<char>,
}

/// The separators and operators of an expression language, as text.
pub ghost struct SyntaxModel {
    pub or_sep: Seq<char>,
    pub and_sep: Seq<char>,
    pub not_prefix: Seq<char>,
    pub not_equals: Seq<char>,
    pub equals: Seq<char>,
}

/// `a == b && !c || d != e`
pub open spec fn symbolic_model() -> SyntaxModel {
    SyntaxModel { or_sep: "||"@, and_sep: "&&"@, not_prefix: "!"@, not_equals: "!="@, equals: "=="@ }
}

/// `a is b and not c or d is not e`
pub open spec fn verbal_model() -> SyntaxModel {
    SyntaxModel { or_sep: " or "@, and_sep: " and "@, not_prefix: "not "@, not_equals: " is not "@, equals: " is "@ }
}

impl DisabledSyntax {
    pub open spec fn model(self) -> SyntaxModel {
        SyntaxModel {
            or_sep: self.or_sep@,
            and_sep: self.and_sep@,
            not_prefix: self.not_prefix@,
            not_equals: self.not_equals@,
            equals: self.equals@,
        }
    }

    /// Every separator and operator is non-empty.
    pub open spec fn wf(self) -> bool {
        &&& self.or_sep@.len() > 0
        &&& self.and_sep@.len() > 0
        &&& self.not_prefix@.len() > 0
        &&& self.not_equals@.len() > 0
        &&& self.equals@.len() > 0
    }

    /// `a == b && !c || d != e`
    pub fn symbolic() -> (r: Self)
        ensures
            r.wf(),
            r.model() == symbolic_model(),
    {
        proof {
            reveal_strlit("||");
            reveal_strlit("&&");
            reveal_strlit("!");
            reveal_strlit("!=");
            reveal_strlit("==");
        }
        Self {
            or_sep: chars_of("||"),
            and_sep: chars_of("&&"),
            not_prefix: chars_of("!"),
            not_equals: chars_of("!="),
            equals: chars_of("=="),
        }
    }

    /// `a is b and not c or d is not e`
    pub fn verbal() -> (r: Self)
        ensures
            r.wf(),
            r.model() == verbal_model(),
    {
        proof {
            reveal_strlit(" or ");
            reveal_strlit(" and ");
            reveal_strlit("not ");
            reveal_strlit(" is not ");
            reveal_strlit(" is ");
        }
        Self {
            or_sep: chars_of(" or "),
            and_sep: chars_of(" and "),
            not_prefix: chars_of("not "),
            not_equals: chars_of(" is not "),
            equals: chars_of(" is "),
        }
    }
}

pub proof fn lemma_trim_len(s: Seq<char>)
    ensures
        trim(s).len() <= s.len(),
        trim_start(s).len() <= s.len(),
{
    lemma_trim_start_len(s);
    lemma_trim_end_len(trim_start(s));
}

proof fn lemma_trim_start_len(s: Seq<char>)
    ensures
        trim_start(s).len() <= s.len(),
    decreases s.len(),
{
    if s.len() > 0 && is_ws(s[0]) {
        lemma_trim_start_len(s.drop_first());
    }
}

proof fn lemma_trim_end_len(s: Seq<char>)
    ensures
        trim_end(s).len() <= s.len(),
    decreases s.len(),
{
    if s.len() > 0 && is_ws(s.last()) {
        lemma_trim_end_len(s.drop_last());
    }
}

/// The meaning of one condition, or the (trimmed) condition that is
/// malformed: a comparison with more than one operator.
pub open spec fn cond_spec(syn: SyntaxModel, c: Seq<char>) -> Result<CondModel, Seq<char>>
    decreases c.len(),
{
    let t = trim(c);
    let not = syn.not_prefix;
    if not.len() > 0 && starts_with(t, not) {
        proof {
            lemma_trim_len(c);
        }
        match cond_spec(syn, t.skip(not.len() as int)) {
            Ok(m) => Ok(CondModel::Not(Box::new(m))),
            Err(e) => Err(e),
        }
    } else if contains_seq(t, syn.not_equals) {
        let parts = split(t, syn.not_equals);
        if parts.len() != 2 {
            Err(t)
        } else {
            Ok(CondModel::NotEquals(trim(parts[0]), trim(parts[1])))
        }
    } else if contains_seq(t, syn.equals) {
        let parts = split(t, syn.equals);
        if parts.len() != 2 {
            Err(t)
        } else {
            Ok(CondModel::Equals(trim(parts[0]), trim(parts[1])))
        }
    } else {
        Ok(CondModel::Flag(t))
    }
}

/// The meanings of a list of conditions, or the first malformed one.
pub open spec fn conds_spec(syn: SyntaxModel, parts: Seq<Seq<char>>) -> Result<Seq<CondModel>, Seq<char>>
    decreases parts.len(),
{
    if parts.len() == 0 {
        Ok(Seq::empty())
    } else {
        match conds_spec(syn, parts.drop_last()) {
            Err(e) => Err(e),
            Ok(cs) => match cond_spec(syn, parts.last()) {
                Err(e) => Err(e),
                Ok(c) => Ok(cs.push(c)),
            },
        }
    }
}

/// The conjunctions of the alternatives `alts`, or the first malformed
/// condition.
pub open spec fn groups_spec(syn: SyntaxModel, alts: Seq<Seq<char>>) -> Result<Seq<Seq<CondModel>>, Seq<char>>
    decreases alts.len(),
{
    if alts.len() == 0 {
        Ok(Seq::empty())
    } else {
        match groups_spec(syn, alts.drop_last()) {
            Err(e) => Err(e),
            Ok(gs) => match conds_spec(syn, trim_all(split(alts.last(), syn.and_sep))) {
                Err(e) => Err(e),
                Ok(g) => Ok(gs.push(g)),
            },
        }
    }
}

/// The meaning of an expression: `None` for a blank one (never disabled),
/// else its alternatives, each a conjunction; or the first malformed
/// condition.
pub open spec fn expr_spec(syn: SyntaxModel, e: Seq<char>) -> Result<Option<Seq<Seq<CondModel>>>, Seq<char>> {
    if trim(e).len() == 0 {
        Ok(None)
    } else {
        match groups_spec(syn, trim_all(split(e, syn.or_sep))) {
            Err(x) => Err(x),
            Ok(gs) => if gs.len() == 0 {
                Ok(None)
            } else {
                Ok(Some(gs))
            },
        }
    }
}

/// The error message for a malformed condition.
pub open spec fn invalid_message(t: Seq<char>) -> Seq<char> {
    "Invalid condition format: "@ + t
}

fn invalid(t: &Vec<char>) -> (r: String)
    ensures
        r@ == invalid_message(t@),
{
    let head = "Invalid condition format: ".to_owned();
    let tail = string_from_chars(t.as_slice());
    head.concat(tail.as_str())
}

/// Parses one condition (see [`cond_spec`]).
pub fn parse_condition(syn: &DisabledSyntax, condition: &Vec<char>) -> (r: Result<Condition, String>)
    requires
        syn.wf(),
    ensures
        match r {
            Ok(c) => cond_spec(syn.model(), condition@) == Ok::<CondModel, Seq<char>>(c.model()),
            Err(m) => cond_spec(syn.model(), condition@) matches Err(t) && m@ == invalid_message(t),
        },
    decreases condition@.len(),
{
    let t = trim_chars(condition);
    proof {
        lemma_trim_len(condition@);
    }
    if let Some(inner) = strip_prefix_chars(&t, &syn.not_prefix) {
        return match parse_condition(syn, &inner) {
            Ok(c) => Ok(Condition::Not(Box::new(c))),
            Err(e) => Err(e),
        };
    }
    if find_chars(&t, &syn.not_equals, 0).is_some() {
        let parts = split_chars(&t, &syn.not_equals);
        proof {
            assert(parts@.map_values(|x: Vec<char>| x@).len() == parts@.len());
        }
        if parts.len() != 2 {
            return Err(invalid(&t));
        }
        proof {
            assert(parts@.map_values(|x: Vec<char>| x@)[0] == parts@[0]@);
            assert(parts@.map_values(|x: Vec<char>| x@)[1] == parts@[1]@);
        }
        let field = trim_chars(&parts[0]);
        let value = trim_chars(&parts[1]);
        return Ok(
            Condition::NotEquals {
                field: string_from_chars(field.as_slice()),
                value: string_from_chars(value.as_slice()),
            },
        );
    }
    if find_chars(&t, &syn.equals, 0).is_some() {
        let parts = split_chars(&t, &syn.equals);
        proof {
            assert(parts@.map_values(|x: Vec<char>| x@).len() == parts@.len());
        }
        if parts.len() != 2 {
            return Err(invalid(&t));
        }
        proof {
            assert(parts@.map_values(|x: Vec<char>| x@)[0] == parts@[0]@);
            assert(parts@.map_values(|x: Vec<char>| x@)[1] == parts@[1]@);
        }
        let field = trim_chars(&parts[0]);
        let value = trim_chars(&parts[1]);
        return Ok(
            Condition::Equals {
                field: string_from_chars(field.as_slice()),
                value: string_from_chars(value.as_slice()),
            },
        );
    }
    Ok(Condition::Flag { field: string_from_chars(t.as_slice()) })
}

/// A parsed expression: it holds when every condition of some group holds.
pub struct DisabledExpr {
    pub groups: Vec<Vec<Condition>>,
}

pub open spec fn group_model(g: Seq<Condition>) -> Seq<CondModel> {
    g.map_values(|c: Condition| c.model())
}

pub open spec fn groups_model(gs: Seq<Vec<Condition>>) -> Seq<Seq<CondModel>> {
    gs.map_values(|g: Vec<Condition>| group_model(g@))
}

impl DisabledExpr {
    pub open spec fn model(self) -> Seq<Seq<CondModel>> {
        groups_model(self.groups@)
    }
}

proof fn lemma_conds_err_extends(syn: SyntaxModel, parts: Seq<Seq<char>>, j: int, e: Seq<char>)
    requires
        0 <= j <= parts.len(),
        conds_spec(syn, parts.take(j)) == Err::<Seq<CondModel>, Seq<char>>(e),
    ensures
        conds_spec(syn, parts) == Err::<Seq<CondModel>, Seq<char>>(e),
    decreases parts.len() - j,
{
    if j < parts.len() {
        assert(parts.take(j + 1).drop_last() =~= parts.take(j));
        lemma_conds_err_extends(syn, parts, j + 1, e);
    } else {
        assert(parts.take(j) =~= parts);
    }
}

proof fn lemma_groups_err_extends(syn: SyntaxModel, alts: Seq<Seq<char>>, j: int, e: Seq<char>)
    requires
        0 <= j <= alts.len(),
        groups_spec(syn, alts.take(j)) == Err::<Seq<Seq<CondModel>>, Seq<char>>(e),
    ensures
        groups_spec(syn, alts) == Err::<Seq<Seq<CondModel>>, Seq<char>>(e),
    decreases alts.len() - j,
{
    if j < alts.len() {
        assert(alts.take(j + 1).drop_last() =~= alts.take(j));
        lemma_groups_err_extends(syn, alts, j + 1, e);
    } else {
        assert(alts.take(j) =~= alts);
    }
}

/// The trimmed pieces of `s` between occurrences of `sep`.
fn trimmed_pieces(s: &Vec<char>, sep: &Vec<char>) -> (r: Vec<Vec<char>>)
    requires
        sep.len() > 0,
    ensures
        r@.map_values(|x: Vec<char>| x@) == trim_all(split(s@, sep@)),
{
    let parts = split_chars(s, sep);
    let ghost pv = parts@.map_values(|x: Vec<char>| x@);
    let mut r: Vec<Vec<char>> = Vec::new();
    let mut i: usize = 0;
    while i < parts.len()
        invariant
            0 <= i <= parts.len(),
            pv == parts@.map_values(|x: Vec<char>| x@),
            pv == split(s@, sep@),
            r@.map_values(|x: Vec<char>| x@) == trim_all(pv).take(i as int),
        decreases parts.len() - i,
    {
        let ghost r0 = r@;
        let t = trim_chars(&parts[i]);
        r.push(t);
        proof {
            assert(pv[i as int] == parts@[i as int]@);
            assert(r@.map_values(|x: Vec<char>| x@) =~= r0.map_values(|x: Vec<char>| x@).push(trim(pv[i as int])));
            assert(trim_all(pv).take(i + 1) =~= trim_all(pv).take(i as int).push(trim(pv[i as int])));
        }
        i = i + 1;
    }
    proof {
        assert(trim_all(pv).take(i as int) =~= trim_all(pv));
    }
    r
}

/// Parses an expression (see [`expr_spec`]): `Ok(None)` for a blank one,
/// `Err` with a message naming the first malformed condition.
pub fn parse_disabled_expression(syn: &DisabledSyntax, expr: &str) -> (r: Result<Option<DisabledExpr>, String>)
    requires
        syn.wf(),
    ensures
        match r {
            Ok(None) => expr_spec(syn.model(), expr@) == Ok::<Option<Seq<Seq<CondModel>>>, Seq<char>>(None),
            Ok(Some(x)) => expr_spec(syn.model(), expr@) == Ok::<Option<Seq<Seq<CondModel>>>, Seq<char>>(Some(x.model())),
            Err(m) => expr_spec(syn.model(), expr@) matches Err(t) && m@ == invalid_message(t),
        },
{
    let e = chars_of(expr);
    let te = trim_chars(&e);
    if te.len() == 0 {
        return Ok(None);
    }
    let alts = trimmed_pieces(&e, &syn.or_sep);
    let ghost av = alts@.map_values(|x: Vec<char>| x@);
    let mut groups: Vec<Vec<Condition>> = Vec::new();
    let mut i: usize = 0;
    proof {
        assert(av.take(0) =~= Seq::<Seq<char>>::empty());
        assert(groups_model(groups@) =~= Seq::<Seq<CondModel>>::empty());
    }
    while i < alts.len()
        invariant
            0 <= i <= alts.len(),
            syn.wf(),
            trim(expr@).len() != 0,
            av == alts@.map_values(|x: Vec<char>| x@),
            av == trim_all(split(expr@, syn.or_sep@)),
            groups_spec(syn.model(), av.take(i as int)) == Ok::<Seq<Seq<CondModel>>, Seq<char>>(groups_model(groups@)),
        decreases alts.len() - i,
    {
        let ands = trimmed_pieces(&alts[i], &syn.and_sep);
        let ghost cv = ands@.map_values(|x: Vec<char>| x@);
        proof {
            assert(av[i as int] == alts@[i as int]@);
        }
        let mut group: Vec<Condition> = Vec::new();
        let mut k: usize = 0;
        proof {
            assert(cv.take(0) =~= Seq::<Seq<char>>::empty());
            assert(group_model(group@) =~= Seq::<CondModel>::empty());
        }
        while k < ands.len()
            invariant
                0 <= k <= ands.len(),
                0 <= i < alts.len(),
                syn.wf(),
                trim(expr@).len() != 0,
                av == alts@.map_values(|x: Vec<char>| x@),
                av == trim_all(split(expr@, syn.or_sep@)),
                groups_spec(syn.model(), av.take(i as int)) == Ok::<Seq<Seq<CondModel>>, Seq<char>>(groups_model(groups@)),
                cv == trim_all(split(av[i as int], syn.and_sep@)),
                cv == ands@.map_values(|x: Vec<char>| x@),
                conds_spec(syn.model(), cv.take(k as int)) == Ok::<Seq<CondModel>, Seq<char>>(group_model(group@)),
            decreases ands.len() - k,
        {
            proof {
                assert(cv[k as int] == ands@[k as int]@);
                assert(cv.take(k + 1).drop_last() =~= cv.take(k as int));
                assert(cv.take(k + 1).last() == cv[k as int]);
            }
            match parse_condition(syn, &ands[k]) {
                Ok(c) => {
                    let ghost g0 = group@;
                    group.push(c);
                    proof {
                        assert(group_model(group@) =~= group_model(g0).push(c.model()));
                    }
                },
                Err(m) => {
                    proof {
                        let t = choose|t: Seq<char>| cond_spec(syn.model(), cv[k as int]) == Err::<CondModel, Seq<char>>(t);
                        lemma_conds_err_extends(syn.model(), cv, k + 1, t);
                        assert(av.take(i + 1).drop_last() =~= av.take(i as int));
                        assert(av.take(i + 1).last() == av[i as int]);
                        lemma_groups_err_extends(syn.model(), av, i + 1, t);
                    }
                    return Err(m);
                },
            }
            k = k + 1;
        }
        proof {
            assert(cv.take(k as int) =~= cv);
            assert(av.take(i + 1).drop_last() =~= av.take(i as int));
            assert(av.take(i + 1).last() == av[i as int]);
        }
        let ghost gs0 = groups@;
        groups.push(group);
        proof {
            assert(groups_model(groups@) =~= groups_model(gs0).push(group_model(group@)));
        }
        i = i + 1;
    }
    proof {
        assert(av.take(i as int) =~= av);
    }
    if groups.len() == 0 {
        Ok(None)
    } else {
        Ok(Some(DisabledExpr { groups }))
    }
}

/// The string and boolean values of the controls an expression reads.
pub struct ControlLookup {
    pub strings: NamedMap<String>,
    pub bools: NamedMap<bool>,
}

/// The string value of `field`: empty when it has none.
pub open spec fn string_value(strings: Map<Seq<char>, String>, field: Seq<char>) -> Seq<char> {
    if strings.contains_key(field) {
        strings[field]@
    } else {
        Seq::empty()
    }
}

/// The boolean value of `field`: false when it has none.
pub open spec fn bool_value(bools: Map<Seq<char>, bool>, field: Seq<char>) -> bool {
    bools.contains_key(field) && bools[field]
}

pub open spec fn eval_cond(c: CondModel, strings: Map<Seq<char>, String>, bools: Map<Seq<char>, bool>) -> bool
    decreases c,
{
    match c {
        CondModel::Not(inner) => !eval_cond(*inner, strings, bools),
        CondModel::NotEquals(f, v) => string_value(strings, f) != v,
        CondModel::Equals(f, v) => string_value(strings, f) == v,
        CondModel::Flag(f) => bool_value(bools, f),
    }
}

/// Every condition of the group holds.
pub open spec fn eval_all(g: Seq<CondModel>, strings: Map<Seq<char>, String>, bools: Map<Seq<char>, bool>) -> bool {
    forall|k: int| 0 <= k < g.len() ==> #[trigger] eval_cond(g[k], strings, bools)
}

/// Some group holds entirely.
pub open spec fn eval_any(gs: Seq<Seq<CondModel>>, strings: Map<Seq<char>, String>, bools: Map<Seq<char>, bool>) -> bool {
    exists|i: int| 0 <= i < gs.len() && #[trigger] eval_all(gs[i], strings, bools)
}

impl Condition {
    /// Whether the condition holds for the given control values.
    pub fn eval(&self, lookup: &ControlLookup) -> (r: bool)
        ensures
            r == eval_cond(self.model(), lookup.strings@, lookup.bools@),
        decreases self,
    {
        match self {
            Condition::Not(inner) => !inner.eval(lookup),
            Condition::NotEquals { field, value } => !string_is(lookup, field.as_str(), value),
            Condition::Equals { field, value } => string_is(lookup, field.as_str(), value),
            Condition::Flag { field } => match lookup.bools.get(field.as_str()) {
                Some(b) => *b,
                None => false,
            },
        }
    }
}

fn string_is(lookup: &ControlLookup, field: &str, value: &String) -> (r: bool)
    ensures
        r == (string_value(lookup.strings@, field@) == value@),
{
    match lookup.strings.get(field) {
        Some(s) => *s == *value,
        None => {
            proof {
                if value@.len() == 0 {
                    assert(value@ =~= Seq::<char>::empty());
                }
            }
            value.as_str().is_empty()
        },
    }
}

impl DisabledExpr {
    /// Whether the expression holds for the given control values: some
    /// group's conditions all hold.
    pub fn is_disabled(&self, lookup: &ControlLookup) -> (r: bool)
        ensures
            r == eval_any(self.model(), lookup.strings@, lookup.bools@),
    {
        let ghost m = self.model();
        let mut i: usize = 0;
        while i < self.groups.len()
            invariant
                0 <= i <= self.groups.len(),
                m == self.model(),
                forall|j: int| 0 <= j < i ==> !#[trigger] eval_all(m[j], lookup.strings@, lookup.bools@),
            decreases self.groups.len() - i,
        {
            let group = &self.groups[i];
            proof {
                assert(m[i as int] == group_model(group@));
            }
            let mut all = true;
            let mut k: usize = 0;
            while k < group.len()
                invariant
                    0 <= k <= group.len(),
                    0 <= i < self.groups.len(),
                    m == self.model(),
                    *group == self.groups@[i as int],
                    m[i as int] == group_model(group@),
                    all == forall|t: int| 0 <= t < k ==> #[trigger] eval_cond(m[i as int][t], lookup.strings@, lookup.bools@),
                decreases group.len() - k,
            {
                let ok = group[k].eval(lookup);
                proof {
                    assert(m[i as int][k as int] == group[k as int].model());
                }
                all = all && ok;
                k = k + 1;
            }
            if all {
                proof {
                    assert(eval_all(m[i as int], lookup.strings@, lookup.bools@));
                }
                return true;
            }
            i = i + 1;
        }
        false
    }
}


/// A condition behind the negation prefix means the opposite of the
/// condition, and is malformed exactly when the condition is, for any
/// condition text, when the prefix neither starts nor ends with whitespace
/// (as `!` does).
pub proof fn law_negation(m: SyntaxModel, c: Seq<char>)
    requires
        m.not_prefix.len() > 0,
        !is_ws(m.not_prefix[0]),
        !is_ws(m.not_prefix.last()),
    ensures
        cond_spec(m, m.not_prefix + c) == (match cond_spec(m, c) {
            Ok(x) => Ok(CondModel::Not(Box::new(x))),
            Err(e) => Err(e),
        }),
{
    let p = m.not_prefix;
    let s = p + c;
    assert(s[0] == p[0]);
    assert(trim_start(s) == s);
    lemma_trim_end_prefix(p, c);
    let t = trim(s);
    assert(t == p + trim_end(c));
    assert(t.take(p.len() as int) =~= p);
    assert(t.skip(p.len() as int) =~= trim_end(c));
    lemma_trim_trim_end(c);
    assert(cond_spec(m, trim_end(c)) == cond_spec(m, c));
}

/// The symbolic syntax negates with `!`, which neither starts nor ends with
/// whitespace.
pub proof fn lemma_symbolic_negation_prefix()
    ensures
        symbolic_model().not_prefix.len() > 0,
        !is_ws(symbolic_model().not_prefix[0]),
        !is_ws(symbolic_model().not_prefix.last()),
{
    reveal_strlit("!");
}


/// An expression disables its control only when, in one of its `||`
/// alternatives, every condition of the `&&` group holds.
pub proof fn law_disabled_needs_a_whole_group(
    gs: Seq<Seq<CondModel>>,
    strings: Map<Seq<char>, String>,
    bools: Map<Seq<char>, bool>,
)
    ensures
        eval_any(gs, strings, bools) ==> exists|i: int|
            #![trigger gs[i]]
            0 <= i < gs.len() && forall|k: int|
                #![trigger gs[i][k]]
                0 <= k < gs[i].len() ==> eval_cond(gs[i][k], strings, bools),
{
    if eval_any(gs, strings, bools) {
        let i = choose|i: int| 0 <= i < gs.len() && #[trigger] eval_all(gs[i], strings, bools);
        assert forall|k: int| 0 <= k < gs[i].len() implies eval_cond(gs[i][k], strings, bools) by {
            assert(eval_cond(gs[i][k], strings, bools));
        }
    }
}

/// An alternative whose conditions all hold disables the control.
pub proof fn law_whole_group_disables(
    gs: Seq<Seq<CondModel>>,
    strings: Map<Seq<char>, String>,
    bools: Map<Seq<char>, bool>,
    i: int,
)
    requires
        0 <= i < gs.len(),
        forall|k: int| #![trigger gs[i][k]] 0 <= k < gs[i].len() ==> eval_cond(gs[i][k], strings, bools),
    ensures
        eval_any(gs, strings, bools),
{
    lemma_group_holds(gs[i], strings, bools);
}

/// A group holds only when each of its conditions holds.
pub proof fn law_group_needs_every_condition(
    g: Seq<CondModel>,
    strings: Map<Seq<char>, String>,
    bools: Map<Seq<char>, bool>,
    k: int,
)
    requires
        0 <= k < g.len(),
        eval_all(g, strings, bools),
    ensures
        eval_cond(g[k], strings, bools),
{
}

proof fn lemma_group_holds(g: Seq<CondModel>, strings: Map<Seq<char>, String>, bools: Map<Seq<char>, bool>)
    requires
        forall|k: int| #![trigger g[k]] 0 <= k < g.len() ==> eval_cond(g[k], strings, bools),
    ensures
        eval_all(g, strings, bools),
{
    assert forall|k: int| 0 <= k < g.len() implies #[trigger] eval_cond(g[k], strings, bools) by {
        assert(eval_cond(g[k], strings, bools));
    }
}

} // verus!
