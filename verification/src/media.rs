//! Environment predicates: the restricted media-query grammar and its
//! evaluation against a point-in-time environment snapshot.
//!
//! Two features are understood: `os-version` (string equality against the
//! running OS identifier) and `prefers-color-scheme` (`light` or `dark`).
//! Any other feature evaluates to false, not to an error.

use vstd::prelude::*;

use crate::values::str_eq;

verus! {

/// The OS-level color scheme.
#[derive(Clone, Copy, Debug, PartialEq, Eq, Structural)]
pub enum SystemTheme {
    Light,
    Dark,
}

/// A point-in-time snapshot of the process environment that predicates are
/// evaluated against.
#[derive(Clone, Debug)]
pub struct Environment {
    /// The running OS identifier, as `os-version` queries see it.
    pub os: String,
    /// The current color scheme.
    pub theme: SystemTheme,
}

/// The mathematical shape of an environment snapshot.
pub struct EnvironmentV {
    pub os: Seq<char>,
    pub theme: SystemTheme,
}

impl View for Environment {
    type V = EnvironmentV;

    open spec fn view(&self) -> EnvironmentV {
        EnvironmentV { os: self.os@, theme: self.theme }
    }
}

impl Environment {
    /// An environment snapshot with the given OS identifier and theme.
    pub fn new(os: &str, theme: SystemTheme) -> (e: Environment)
        ensures
            e@ == (EnvironmentV { os: os@, theme }),
    {
        Environment { os: os.to_owned(), theme }
    }
}

/// A predicate over the environment, mirroring a restricted media-query
/// condition grammar.
#[derive(Debug)]
pub enum Condition {
    /// A plain feature test `(name: value)`.
    Feature(String, String),
    /// Logical negation.
    Not(Box<Condition>),
    /// True when all inner conditions are (vacuously true when empty).
    And(Vec<Condition>),
    /// True when any inner condition is (vacuously false when empty).
    Or(Vec<Condition>),
    /// Anything else; never matches.
    Unsupported,
}

/// The mathematical shape of a condition.
pub enum ConditionV {
    Feature(Seq<char>, Seq<char>),
    Not(Box<ConditionV>),
    And(Seq<ConditionV>),
    Or(Seq<ConditionV>),
    Unsupported,
}

/// The mathematical shape of a condition value.
pub open spec fn condition_view(c: Condition) -> ConditionV
    decreases c, 1int,
{
    match c {
        Condition::Feature(n, v) => ConditionV::Feature(n@, v@),
        Condition::Not(inner) => ConditionV::Not(Box::new(condition_view(*inner))),
        Condition::And(cs) => ConditionV::And(conditions_view(cs@)),
        Condition::Or(cs) => ConditionV::Or(conditions_view(cs@)),
        Condition::Unsupported => ConditionV::Unsupported,
    }
}

/// The shapes of a sequence of conditions, element by element.
pub open spec fn conditions_view(cs: Seq<Condition>) -> Seq<ConditionV>
    decreases cs, 0int,
{
    if cs.len() == 0 {
        Seq::empty()
    } else {
        conditions_view(cs.subrange(0, cs.len() - 1)).push(condition_view(cs[cs.len() - 1]))
    }
}

/// `conditions_view` is elementwise `condition_view`.
pub proof fn lemma_conditions_view(cs: Seq<Condition>)
    ensures
        conditions_view(cs).len() == cs.len(),
        forall|i: int|
            #![trigger conditions_view(cs)[i]]
            #![trigger cs[i]]
            0 <= i < cs.len() ==> conditions_view(cs)[i] == condition_view(cs[i]),
    decreases cs.len(),
{
    if cs.len() > 0 {
        lemma_conditions_view(cs.subrange(0, cs.len() - 1));
        assert forall|i: int|
            #![trigger conditions_view(cs)[i]]
            #![trigger cs[i]]
            0 <= i < cs.len() implies conditions_view(cs)[i] == condition_view(cs[i]) by {
            if i < cs.len() - 1 {
                assert(cs.subrange(0, cs.len() - 1)[i] == cs[i]);
            }
        }
    }
}

impl DeepView for Condition {
    type V = ConditionV;

    open spec fn deep_view(&self) -> ConditionV {
        condition_view(*self)
    }
}

/// Whether one feature test holds of the environment. Only `os-version`
/// and `prefers-color-scheme` are understood; other names never match.
pub open spec fn feature_matches(name: Seq<char>, value: Seq<char>, env: EnvironmentV) -> bool {
    if name == "os-version"@ {
        value == env.os
    } else if name == "prefers-color-scheme"@ {
        (value == "light"@ && env.theme == SystemTheme::Light) || (value == "dark"@ && env.theme
            == SystemTheme::Dark)
    } else {
        false
    }
}

/// Whether a condition holds of the environment.
pub open spec fn condition_matches(c: ConditionV, env: EnvironmentV) -> bool
    decreases c, 1int,
{
    match c {
        ConditionV::Feature(name, value) => feature_matches(name, value, env),
        ConditionV::Not(inner) => !condition_matches(*inner, env),
        ConditionV::And(cs) => all_conditions_match(cs, env),
        ConditionV::Or(cs) => any_condition_matches(cs, env),
        ConditionV::Unsupported => false,
    }
}

/// Whether every condition in the sequence holds; vacuously true when it is
/// empty.
pub open spec fn all_conditions_match(cs: Seq<ConditionV>, env: EnvironmentV) -> bool
    decreases cs, 0int,
{
    if cs.len() == 0 {
        true
    } else {
        all_conditions_match(cs.subrange(0, cs.len() - 1), env) && condition_matches(
            cs[cs.len() - 1],
            env,
        )
    }
}

/// Whether any condition in the sequence holds; vacuously false when it is
/// empty.
pub open spec fn any_condition_matches(cs: Seq<ConditionV>, env: EnvironmentV) -> bool
    decreases cs, 0int,
{
    if cs.len() == 0 {
        false
    } else {
        any_condition_matches(cs.subrange(0, cs.len() - 1), env) || condition_matches(
            cs[cs.len() - 1],
            env,
        )
    }
}

/// `all_conditions_match` says that each condition holds.
pub proof fn lemma_all_conditions_match(cs: Seq<ConditionV>, env: EnvironmentV)
    ensures
        all_conditions_match(cs, env) == (forall|i: int|
            0 <= i < cs.len() ==> condition_matches(#[trigger] cs[i], env)),
    decreases cs.len(),
{
    if cs.len() > 0 {
        let front = cs.subrange(0, cs.len() - 1);
        lemma_all_conditions_match(front, env);
        assert forall|i: int| 0 <= i < cs.len() - 1 implies (condition_matches(
            #[trigger] cs[i],
            env,
        ) == condition_matches(front[i], env)) by {
            assert(front[i] == cs[i]);
        }
    }
}

/// `any_condition_matches` says that some condition holds.
pub proof fn lemma_any_condition_matches(cs: Seq<ConditionV>, env: EnvironmentV)
    ensures
        any_condition_matches(cs, env) == (exists|i: int|
            0 <= i < cs.len() && condition_matches(#[trigger] cs[i], env)),
    decreases cs.len(),
{
    if cs.len() > 0 {
        let front = cs.subrange(0, cs.len() - 1);
        lemma_any_condition_matches(front, env);
        assert forall|i: int| 0 <= i < cs.len() - 1 implies (condition_matches(
            #[trigger] cs[i],
            env,
        ) == condition_matches(front[i], env)) by {
            assert(front[i] == cs[i]);
        }
        if any_condition_matches(front, env) {
            let j = choose|j: int| 0 <= j < front.len() && condition_matches(front[j], env);
            assert(cs[j] == front[j]);
            assert(condition_matches(cs[j], env));
        }
    }
}

impl Condition {
    /// Evaluates this condition; exactly [`condition_matches`].
    pub fn matches_environment(&self, env: &Environment) -> (r: bool)
        ensures
            r == condition_matches(self.deep_view(), env@),
        decreases *self, 1int,
    {
        let result: bool = match self {
            Condition::Feature(name, value) => {
                let arm: bool = if str_eq(name.as_str(), "os-version") {
                    str_eq(value.as_str(), env.os.as_str())
                } else if str_eq(name.as_str(), "prefers-color-scheme") {
                    let is_light = match env.theme {
                        SystemTheme::Light => true,
                        SystemTheme::Dark => false,
                    };
                    if is_light {
                        str_eq(value.as_str(), "light")
                    } else {
                        str_eq(value.as_str(), "dark")
                    }
                } else {
                    false
                };
                proof {
                    assert(self.deep_view() == ConditionV::Feature(name@, value@));
                    assert(arm == feature_matches(name@, value@, env@));
                }
                arm
            },
            Condition::Not(inner) => {
                let arm = !inner.matches_environment(env);
                proof {
                    assert(self.deep_view() == ConditionV::Not(
                        Box::new(condition_view(**inner)),
                    ));
                    assert(condition_matches(self.deep_view(), env@) == !condition_matches(
                        condition_view(**inner),
                        env@,
                    ));
                }
                arm
            },
            Condition::And(cs) => {
                let arm = all_match(cs, env);
                proof {
                    let cvs = conditions_view(cs@);
                    lemma_conditions_view(cs@);
                    lemma_all_conditions_match(cvs, env@);
                    if arm {
                        assert forall|i: int| 0 <= i < cvs.len() implies condition_matches(
                            #[trigger] cvs[i],
                            env@,
                        ) by {
                            assert(cvs[i] == condition_view(cs@[i]));
                            assert(condition_matches(condition_view(cs@[i]), env@));
                        }
                    } else {
                        let j = choose|j: int|
                            0 <= j < cs@.len() && !condition_matches(
                                condition_view(cs@[j]),
                                env@,
                            );
                        assert(cvs[j] == condition_view(cs@[j]));
                        assert(0 <= j < cvs.len() && !condition_matches(cvs[j], env@));
                    }
                    assert(arm == condition_matches(self.deep_view(), env@));
                }
                arm
            },
            Condition::Or(cs) => {
                let arm = any_match(cs, env);
                proof {
                    let cvs = conditions_view(cs@);
                    lemma_conditions_view(cs@);
                    lemma_any_condition_matches(cvs, env@);
                    if arm {
                        let j = choose|j: int|
                            0 <= j < cs@.len() && condition_matches(
                                condition_view(cs@[j]),
                                env@,
                            );
                        assert(cvs[j] == condition_view(cs@[j]));
                        assert(0 <= j < cvs.len() && condition_matches(cvs[j], env@));
                    } else {
                        assert forall|i: int| 0 <= i < cvs.len() implies !condition_matches(
                            #[trigger] cvs[i],
                            env@,
                        ) by {
                            assert(cvs[i] == condition_view(cs@[i]));
                            assert(!condition_matches(condition_view(cs@[i]), env@));
                        }
                    }
                    assert(arm == condition_matches(self.deep_view(), env@));
                }
                arm
            },
            Condition::Unsupported => false,
        };
        proof {
            assert(result == condition_matches(self.deep_view(), env@));
        }
        result
    }
}

/// Whether every condition in the list holds of the environment.
fn all_match(cs: &Vec<Condition>, env: &Environment) -> (r: bool)
    ensures
        r == (forall|j: int|
            0 <= j < cs@.len() ==> condition_matches(condition_view(#[trigger] cs@[j]), env@)),
    decreases cs@, 0int,
{
    let len = cs.len();
    let mut i: usize = 0;
    while i < len
        invariant_except_break
            i <= len,
            len == cs.len(),
            forall|j: int| 0 <= j < i ==> condition_matches(condition_view(#[trigger] cs@[j]), env@),
        ensures
            len == cs.len(),
            (i == len && forall|j: int|
                0 <= j < len ==> condition_matches(condition_view(#[trigger] cs@[j]), env@)) || (i
                < len && !condition_matches(condition_view(cs@[i as int]), env@)),
        decreases len - i,
    {
        proof {
            assert(decreases_to!(cs@ => cs@[i as int]));
        }
        if !cs[i].matches_environment(env) {
            break;
        }
        i = i + 1;
    }
    i == len
}

/// Whether any condition in the list holds of the environment.
fn any_match(cs: &Vec<Condition>, env: &Environment) -> (r: bool)
    ensures
        r == (exists|j: int|
            0 <= j < cs@.len() && condition_matches(condition_view(#[trigger] cs@[j]), env@)),
    decreases cs@, 0int,
{
    let len = cs.len();
    let mut i: usize = 0;
    while i < len
        invariant_except_break
            i <= len,
            len == cs.len(),
            forall|j: int| 0 <= j < i ==> !condition_matches(condition_view(#[trigger] cs@[j]), env@),
        ensures
            len == cs.len(),
            (i == len && forall|j: int|
                0 <= j < len ==> !condition_matches(condition_view(#[trigger] cs@[j]), env@)) || (i
                < len && condition_matches(condition_view(cs@[i as int]), env@)),
        decreases len - i,
    {
        proof {
            assert(decreases_to!(cs@ => cs@[i as int]));
        }
        if cs[i].matches_environment(env) {
            break;
        }
        i = i + 1;
    }
    i < len
}

/// One media query: an optional condition and a `not` qualifier that
/// negates the final evaluation.
#[derive(Debug)]
pub struct Query {
    pub negated: bool,
    pub condition: Option<Condition>,
}

/// The mathematical shape of a query.
pub struct QueryV {
    pub negated: bool,
    pub condition: Option<ConditionV>,
}

impl DeepView for Query {
    type V = QueryV;

    open spec fn deep_view(&self) -> QueryV {
        QueryV {
            negated: self.negated,
            condition: match self.condition {
                Some(ref c) => Some(c.deep_view()),
                None => None,
            },
        }
    }
}

/// Whether one query holds: a missing condition holds, and the `not`
/// qualifier negates the outcome.
pub open spec fn query_matches(q: QueryV, env: EnvironmentV) -> bool {
    let base = match q.condition {
        Some(c) => condition_matches(c, env),
        None => true,
    };
    if q.negated {
        !base
    } else {
        base
    }
}

/// Whether a query list holds: any query does (an empty list never does).
pub open spec fn query_list_matches(qs: Seq<QueryV>, env: EnvironmentV) -> bool {
    exists|i: int| 0 <= i < qs.len() && query_matches(#[trigger] qs[i], env)
}

impl Query {
    /// Evaluates this query; exactly [`query_matches`].
    pub fn matches_environment(&self, env: &Environment) -> (r: bool)
        ensures
            r == query_matches(self.deep_view(), env@),
    {
        let base = match &self.condition {
            Some(c) => c.matches_environment(env),
            None => true,
        };
        if self.negated {
            !base
        } else {
            base
        }
    }
}

/// Evaluates a query list; exactly [`query_list_matches`].
pub fn queries_match(qs: &Vec<Query>, env: &Environment) -> (r: bool)
    ensures
        r == query_list_matches(qs.deep_view(), env@),
{
    let len = qs.len();
    let mut i: usize = 0;
    while i < len
        invariant_except_break
            i <= len,
            len == qs.len(),
            forall|j: int| 0 <= j < i ==> !query_matches(#[trigger] qs@[j].deep_view(), env@),
        ensures
            len == qs.len(),
            (i == len && forall|j: int|
                0 <= j < len ==> !query_matches(#[trigger] qs@[j].deep_view(), env@)) || (i < len
                && query_matches(qs@[i as int].deep_view(), env@)),
        decreases len - i,
    {
        if qs[i].matches_environment(env) {
            break;
        }
        i = i + 1;
    }
    proof {
        if i < len {
            assert(qs.deep_view()[i as int] == qs@[i as int].deep_view());
        } else {
            assert(forall|j: int| 0 <= j < len ==> qs.deep_view()[j] == qs@[j].deep_view());
        }
    }
    i < len
}

} // verus!
