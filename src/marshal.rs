use vstd::prelude::*;
use crate::model::{
    conditions_py_view, strings_view, time_from_py, time_to_py, Bound, ConditionPy, GroupPy,
    ProblemPy, TemporalRelationship, TemporalRelationshipPy, TimelinePy, TokenPy, TokenTime,
    TokenTimePy, ValuePy,
};
use crate::problem::{conditions_view, Condition, Group, Problem, Timeline, Token, Value};

verus! {

fn clone_strings(v: &Vec<String>) -> (r: Vec<String>)
    ensures
        strings_view(r) == strings_view(*v),
{
    let mut r: Vec<String> = Vec::new();
    let mut i: usize = 0;
    while i < v.len()
        invariant
            i <= v.len(),
            r.len() == i,
            forall|j: int| 0 <= j < i ==> r@[j]@ == v@[j]@,
        decreases v.len() - i,
    {
        r.push(v[i].clone());
        i += 1;
    }
    assert(strings_view(r) =~= strings_view(*v));
    r
}

pub fn relationship_from_py(r: TemporalRelationshipPy) -> (c: TemporalRelationship)
    ensures
        c == r@,
{
    match r {
        TemporalRelationshipPy::MetBy => TemporalRelationship::MetBy,
        TemporalRelationshipPy::MetByTransitionFrom => TemporalRelationship::MetByTransitionFrom,
        TemporalRelationshipPy::Meets => TemporalRelationship::Meets,
        TemporalRelationshipPy::Cover => TemporalRelationship::Cover,
        TemporalRelationshipPy::Equal => TemporalRelationship::Equal,
        TemporalRelationshipPy::StartsAfter => TemporalRelationship::StartsAfter,
    }
}

pub fn relationship_to_py(c: TemporalRelationship) -> (r: TemporalRelationshipPy)
    ensures
        r@ == c,
{
    match c {
        TemporalRelationship::MetBy => TemporalRelationshipPy::MetBy,
        TemporalRelationship::MetByTransitionFrom => TemporalRelationshipPy::MetByTransitionFrom,
        TemporalRelationship::Meets => TemporalRelationshipPy::Meets,
        TemporalRelationship::Cover => TemporalRelationshipPy::Cover,
        TemporalRelationship::Equal => TemporalRelationshipPy::Equal,
        TemporalRelationship::StartsAfter => TemporalRelationshipPy::StartsAfter,
    }
}

pub fn token_time_from_py(t: TokenTimePy) -> (r: TokenTime)
    ensures
        r == time_from_py(t),
{
    match t {
        None => TokenTime::Goal,
        Some((a, b)) => {
            let start = match a {
                Some(n) => Bound::Fixed(n),
                None => Bound::Unbounded,
            };
            let end = match b {
                Some(n) => Bound::Fixed(n),
                None => Bound::Unbounded,
            };
            TokenTime::Fact(start, end)
        },
    }
}

pub fn token_time_to_py(t: TokenTime) -> (r: TokenTimePy)
    ensures
        r == time_to_py(t),
{
    match t {
        TokenTime::Goal => None,
        TokenTime::Fact(a, b) => {
            let start = match a {
                Bound::Fixed(n) => Some(n),
                Bound::Unbounded => None,
            };
            let end = match b {
                Bound::Fixed(n) => Some(n),
                Bound::Unbounded => None,
            };
            Some((start, end))
        },
    }
}

pub fn condition_from_py(c: &ConditionPy) -> (r: Condition)
    ensures
        r@ == c@,
{
    Condition {
        temporal_relationship: relationship_from_py(c.temporal_relationship),
        object: clone_strings(&c.object),
        value: c.value.clone(),
        amount: c.amount,
    }
}

pub fn condition_to_py(c: &Condition) -> (r: ConditionPy)
    ensures
        r@ == c@,
{
    ConditionPy {
        temporal_relationship: relationship_to_py(c.temporal_relationship),
        object: clone_strings(&c.object),
        value: c.value.clone(),
        amount: c.amount,
    }
}

fn conditions_from_py(v: &Vec<ConditionPy>) -> (r: Vec<Condition>)
    ensures
        conditions_view(r) == conditions_py_view(*v),
{
    let mut r: Vec<Condition> = Vec::new();
    let mut i: usize = 0;
    while i < v.len()
        invariant
            i <= v.len(),
            r.len() == i,
            forall|j: int| 0 <= j < i ==> r@[j]@ == v@[j]@,
        decreases v.len() - i,
    {
        r.push(condition_from_py(&v[i]));
        i += 1;
    }
    assert(conditions_view(r) =~= conditions_py_view(*v));
    r
}

fn conditions_to_py(v: &Vec<Condition>) -> (r: Vec<ConditionPy>)
    ensures
        conditions_py_view(r) == conditions_view(*v),
{
    let mut r: Vec<ConditionPy> = Vec::new();
    let mut i: usize = 0;
    while i < v.len()
        invariant
            i <= v.len(),
            r.len() == i,
            forall|j: int| 0 <= j < i ==> r@[j]@ == v@[j]@,
        decreases v.len() - i,
    {
        r.push(condition_to_py(&v[i]));
        i += 1;
    }
    assert(conditions_py_view(r) =~= conditions_view(*v));
    r
}

pub fn value_from_py(v: &ValuePy) -> (r: Value)
    ensures
        r@ == v@,
{
    Value {
        name: v.name.clone(),
        duration: v.duration,
        conditions: conditions_from_py(&v.conditions),
        capacity: v.capacity,
    }
}

pub fn value_to_py(v: &Value) -> (r: ValuePy)
    ensures
        r@ == v@,
{
    ValuePy {
        name: v.name.clone(),
        duration: v.duration,
        conditions: conditions_to_py(&v.conditions),
        capacity: v.capacity,
    }
}

pub fn timeline_from_py(t: &TimelinePy) -> (r: Timeline)
    ensures
        r@ == t@,
{
    let mut values: Vec<Value> = Vec::new();
    let mut i: usize = 0;
    while i < t.values.len()
        invariant
            i <= t.values.len(),
            values.len() == i,
            forall|j: int| 0 <= j < i ==> values@[j]@ == t.values@[j]@,
        decreases t.values.len() - i,
    {
        values.push(value_from_py(&t.values[i]));
        i += 1;
    }
    let r = Timeline { name: t.name.clone(), values };
    assert(r@.values =~= t@.values);
    r
}

pub fn timeline_to_py(t: &Timeline) -> (r: TimelinePy)
    ensures
        r@ == t@,
{
    let mut values: Vec<ValuePy> = Vec::new();
    let mut i: usize = 0;
    while i < t.values.len()
        invariant
            i <= t.values.len(),
            values.len() == i,
            forall|j: int| 0 <= j < i ==> values@[j]@ == t.values@[j]@,
        decreases t.values.len() - i,
    {
        values.push(value_to_py(&t.values[i]));
        i += 1;
    }
    let r = TimelinePy { name: t.name.clone(), values };
    assert(r@.values =~= t@.values);
    r
}

pub fn group_from_py(g: &GroupPy) -> (r: Group)
    ensures
        r@ == g@,
{
    Group { name: g.name.clone(), members: clone_strings(&g.members) }
}

pub fn group_to_py(g: &Group) -> (r: GroupPy)
    ensures
        r@ == g@,
{
    GroupPy { name: g.name.clone(), members: clone_strings(&g.members) }
}

pub fn token_from_py(t: &TokenPy) -> (r: Token)
    ensures
        r@ == t@,
{
    Token {
        timeline_name: t.timeline_name.clone(),
        value: t.value.clone(),
        capacity: t.capacity,
        const_time: token_time_from_py(t.const_time),
        conditions: conditions_from_py(&t.conditions),
    }
}

pub fn token_to_py(t: &Token) -> (r: TokenPy)
    ensures
        r@ == t@,
        r.const_time == time_to_py(t.const_time),
{
    TokenPy {
        timeline_name: t.timeline_name.clone(),
        value: t.value.clone(),
        capacity: t.capacity,
        const_time: token_time_to_py(t.const_time),
        conditions: conditions_to_py(&t.conditions),
    }
}

/// The core form of a problem given in binding-surface form.
pub fn problem_from_py(p: &ProblemPy) -> (r: Problem)
    ensures
        r@ == p@,
{
    let mut timelines: Vec<Timeline> = Vec::new();
    let mut i: usize = 0;
    while i < p.timelines.len()
        invariant
            i <= p.timelines.len(),
            timelines.len() == i,
            forall|j: int| 0 <= j < i ==> timelines@[j]@ == p.timelines@[j]@,
        decreases p.timelines.len() - i,
    {
        timelines.push(timeline_from_py(&p.timelines[i]));
        i += 1;
    }
    let mut groups: Vec<Group> = Vec::new();
    let mut i: usize = 0;
    while i < p.groups.len()
        invariant
            i <= p.groups.len(),
            groups.len() == i,
            forall|j: int| 0 <= j < i ==> groups@[j]@ == p.groups@[j]@,
        decreases p.groups.len() - i,
    {
        groups.push(group_from_py(&p.groups[i]));
        i += 1;
    }
    let mut tokens: Vec<Token> = Vec::new();
    let mut i: usize = 0;
    while i < p.tokens.len()
        invariant
            i <= p.tokens.len(),
            tokens.len() == i,
            forall|j: int| 0 <= j < i ==> tokens@[j]@ == p.tokens@[j]@,
        decreases p.tokens.len() - i,
    {
        tokens.push(token_from_py(&p.tokens[i]));
        i += 1;
    }
    let r = Problem { timelines, groups, tokens };
    assert(r@.timelines =~= p@.timelines);
    assert(r@.groups =~= p@.groups);
    assert(r@.tokens =~= p@.tokens);
    r
}

/// The binding-surface form of a core problem.
pub fn problem_to_py(p: &Problem) -> (r: ProblemPy)
    ensures
        r@ == p@,
{
    let mut timelines: Vec<TimelinePy> = Vec::new();
    let mut i: usize = 0;
    while i < p.timelines.len()
        invariant
            i <= p.timelines.len(),
            timelines.len() == i,
            forall|j: int| 0 <= j < i ==> timelines@[j]@ == p.timelines@[j]@,
        decreases p.timelines.len() - i,
    {
        timelines.push(timeline_to_py(&p.timelines[i]));
        i += 1;
    }
    let mut groups: Vec<GroupPy> = Vec::new();
    let mut i: usize = 0;
    while i < p.groups.len()
        invariant
            i <= p.groups.len(),
            groups.len() == i,
            forall|j: int| 0 <= j < i ==> groups@[j]@ == p.groups@[j]@,
        decreases p.groups.len() - i,
    {
        groups.push(group_to_py(&p.groups[i]));
        i += 1;
    }
    let mut tokens: Vec<TokenPy> = Vec::new();
    let mut i: usize = 0;
    while i < p.tokens.len()
        invariant
            i <= p.tokens.len(),
            tokens.len() == i,
            forall|j: int| 0 <= j < i ==> tokens@[j]@ == p.tokens@[j]@,
        decreases p.tokens.len() - i,
    {
        tokens.push(token_to_py(&p.tokens[i]));
        i += 1;
    }
    let r = ProblemPy { timelines, groups, tokens };
    assert(r@.timelines =~= p@.timelines);
    assert(r@.groups =~= p@.groups);
    assert(r@.tokens =~= p@.tokens);
    r
}

/// The two token-time shapes are in one-to-one correspondence: converting
/// either way and back gives the starting value.
pub proof fn lemma_token_time_round_trip(t: TokenTimePy, c: TokenTime)
    ensures
        time_to_py(time_from_py(t)) == t,
        time_from_py(time_to_py(c)) == c,
{
}

/// Marshalling a problem out of the binding surface and back is the identity:
/// the result has the same view, and every token carries its time in the very
/// same optional-of-pair form it started with.
pub proof fn lemma_problem_round_trip(p: ProblemPy, c: Problem, q: ProblemPy)
    requires
        c@ == p@,
        q@ == c@,
    ensures
        q@ == p@,
        q.tokens@.len() == p.tokens@.len(),
        forall|i: int|
            0 <= i < p.tokens@.len() ==> q.tokens@[i].const_time == p.tokens@[i].const_time,
{
    assert(q@.tokens.len() == q.tokens@.len());
    assert(p@.tokens.len() == p.tokens@.len());
    assert forall|i: int| 0 <= i < p.tokens@.len() implies q.tokens@[i].const_time
        == p.tokens@[i].const_time by {
        assert(q@.tokens[i] == q.tokens@[i]@);
        assert(p@.tokens[i] == p.tokens@[i]@);
        lemma_token_time_round_trip(q.tokens@[i].const_time, TokenTime::Goal);
        lemma_token_time_round_trip(p.tokens@[i].const_time, TokenTime::Goal);
    }
}

} // verus!
