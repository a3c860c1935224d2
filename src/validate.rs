use vstd::prelude::*;
use crate::model::{
    Bound, ConditionView, ProblemView, TimelineView, TokenTime, TokenView, ValueView,
};
use crate::problem::{conditions_view, Condition, Group, Problem, Timeline, Token};

verus! {

/// Every kind of failure the planning core can report.
#[derive(Debug)]
pub enum SolveError {
    /// A structural invariant of the problem is broken; names the entity.
    MalformedProblem(String),
    /// Expansion of supporting tokens reaches no fixpoint.
    Unbounded,
    /// The problem is well formed but no schedule satisfies it.
    Infeasible,
    /// A deadline elapsed or the caller cancelled.
    Cancelled,
    /// A solver invariant was violated.
    Internal,
}

// ---------------------------------------------------------------------------
// Structural invariants
// ---------------------------------------------------------------------------

pub open spec fn is_timeline(p: ProblemView, name: Seq<char>) -> bool {
    exists|i: int| 0 <= i < p.timelines.len() && p.timelines[i].name == name
}

pub open spec fn is_group(p: ProblemView, name: Seq<char>) -> bool {
    exists|g: int| 0 <= g < p.groups.len() && p.groups[g].name == name
}

pub open spec fn has_value(t: TimelineView, name: Seq<char>) -> bool {
    exists|k: int| 0 <= k < t.values.len() && t.values[k].name == name
}

pub open spec fn timeline_names_unique(p: ProblemView) -> bool {
    forall|i: int, j: int|
        0 <= i < p.timelines.len() && 0 <= j < p.timelines.len() && i != j
            ==> p.timelines[i].name != p.timelines[j].name
}

/// Group names are unique and no group is named like a timeline.
pub open spec fn group_names_ok(p: ProblemView) -> bool {
    &&& forall|g: int, h: int|
        0 <= g < p.groups.len() && 0 <= h < p.groups.len() && g != h
            ==> p.groups[g].name != p.groups[h].name
    &&& forall|g: int| 0 <= g < p.groups.len() ==> !is_timeline(p, #[trigger] p.groups[g].name)
}

/// Each member of each group names a timeline or a group.
pub open spec fn group_members_known(p: ProblemView) -> bool {
    forall|g: int, m: int|
        0 <= g < p.groups.len() && 0 <= m < p.groups[g].members.len() ==> is_timeline(
            p,
            #[trigger] p.groups[g].members[m],
        ) || is_group(p, p.groups[g].members[m])
}

/// Every chain of group references that starts at `name` passes through at
/// most `fuel` groups.
pub open spec fn depth_ok(p: ProblemView, name: Seq<char>, fuel: nat) -> bool
    decreases fuel,
{
    forall|g: int|
        0 <= g < p.groups.len() && #[trigger] p.groups[g].name == name ==> fuel > 0 && forall|
            m: int,
        |
            0 <= m < p.groups[g].members.len() ==> depth_ok(
                p,
                #[trigger] p.groups[g].members[m],
                (fuel - 1) as nat,
            )
}

/// No group contains itself transitively. A reference chain through more
/// groups than there are must visit one of them twice, so bounding every
/// chain by the number of groups says exactly that the graph has no cycle.
pub open spec fn groups_acyclic(p: ProblemView) -> bool {
    forall|g: int| 0 <= g < p.groups.len() ==> depth_ok(p, #[trigger] p.groups[g].name, p.groups.len())
}

/// `name` resolves, through at most `fuel` levels of groups, to timelines
/// that all have a value called `value`.
pub open spec fn target_ok(p: ProblemView, name: Seq<char>, value: Seq<char>, fuel: nat) -> bool
    decreases fuel,
{
    ||| exists|i: int|
        0 <= i < p.timelines.len() && p.timelines[i].name == name && has_value(
            p.timelines[i],
            value,
        )
    ||| fuel > 0 && exists|g: int|
        0 <= g < p.groups.len() && p.groups[g].name == name && forall|m: int|
            0 <= m < p.groups[g].members.len() ==> target_ok(
                p,
                #[trigger] p.groups[g].members[m],
                value,
                (fuel - 1) as nat,
            )
}

pub open spec fn condition_ok(p: ProblemView, c: ConditionView) -> bool {
    &&& c.amount >= 1
    &&& forall|k: int| 0 <= k < c.object.len() ==> target_ok(p, #[trigger] c.object[k], c.value, p.groups.len())
}

pub open spec fn conditions_ok(p: ProblemView, cs: Seq<ConditionView>) -> bool {
    forall|i: int| 0 <= i < cs.len() ==> condition_ok(p, #[trigger] cs[i])
}

pub open spec fn duration_ok(d: (usize, Option<usize>)) -> bool {
    d.1 matches Some(m) ==> d.0 <= m
}

/// A length lies in a duration interval (`None`: no upper limit).
pub open spec fn duration_admits(d: (usize, Option<usize>), len: int) -> bool {
    &&& d.0 <= len
    &&& d.1 matches Some(m) ==> len <= m
}

pub open spec fn value_ok(p: ProblemView, v: ValueView) -> bool {
    &&& v.capacity >= 1
    &&& duration_ok(v.duration)
    &&& conditions_ok(p, v.conditions)
}

pub open spec fn timeline_ok(p: ProblemView, t: TimelineView) -> bool {
    &&& forall|j: int, k: int|
        0 <= j < t.values.len() && 0 <= k < t.values.len() && j != k ==> t.values[j].name
            != t.values[k].name
    &&& forall|k: int| 0 <= k < t.values.len() ==> value_ok(p, #[trigger] t.values[k])
}

/// A fact whose bounds are both fixed is ordered and has a length the value
/// admits; any other time is unconstrained here.
pub open spec fn time_ok(time: TokenTime, d: (usize, Option<usize>)) -> bool {
    match time {
        TokenTime::Fact(Bound::Fixed(s), Bound::Fixed(e)) => s <= e && duration_admits(
            d,
            e - s,
        ),
        _ => true,
    }
}

pub open spec fn token_ok(p: ProblemView, tk: TokenView) -> bool {
    &&& tk.capacity >= 1
    &&& conditions_ok(p, tk.conditions)
    &&& exists|i: int, k: int|
        0 <= i < p.timelines.len() && 0 <= k < p.timelines[i].values.len()
            && p.timelines[i].name == tk.timeline_name && p.timelines[i].values[k].name == tk.value
            && time_ok(tk.time, p.timelines[i].values[k].duration)
}

/// A condition in `cs` breaks an invariant through `n`: `n` is its target
/// value and its amount is zero, or `n` is one of its target objects and does
/// not resolve to timelines that all have the target value.
pub open spec fn conditions_offend(p: ProblemView, cs: Seq<ConditionView>, n: Seq<char>) -> bool {
    exists|i: int|
        0 <= i < cs.len() && (((#[trigger] cs[i]).value == n && cs[i].amount < 1) || (
        cs[i].object.contains(n) && !target_ok(p, n, cs[i].value, p.groups.len())))
}

/// A value of timeline `t` breaks an invariant through `n`: a value named `n`
/// is named twice, has no capacity or an inverted duration, or one of its
/// conditions offends through `n`.
pub open spec fn timeline_offends(p: ProblemView, t: TimelineView, n: Seq<char>) -> bool {
    exists|k: int|
        0 <= k < t.values.len() && (((#[trigger] t.values[k]).name == n && (t.values[k].capacity < 1
            || !duration_ok(t.values[k].duration) || exists|j: int|
            0 <= j < t.values.len() && j != k && t.values[j].name == n)) || conditions_offend(
            p,
            t.values[k].conditions,
            n,
        ))
}

/// Token `tk` breaks an invariant through `n`: `n` is its timeline and names
/// no timeline, or `n` is its value and the token is not well formed, or one
/// of its conditions offends through `n`.
pub open spec fn token_offends(p: ProblemView, tk: TokenView, n: Seq<char>) -> bool {
    ||| n == tk.timeline_name && !is_timeline(p, n)
    ||| n == tk.value && !token_ok(p, tk)
    ||| conditions_offend(p, tk.conditions, n)
}

/// `n` names an entity that breaks an invariant of the problem: a timeline or
/// group name used twice, a group named like a timeline, an unknown group
/// member, a group on a cycle, or an offending value, condition or token.
pub open spec fn offends(p: ProblemView, n: Seq<char>) -> bool {
    ||| exists|i: int, j: int|
        0 <= i < p.timelines.len() && 0 <= j < p.timelines.len() && i != j
            && (#[trigger] p.timelines[i]).name == n && (#[trigger] p.timelines[j]).name == n
    ||| exists|g: int, h: int|
        0 <= g < p.groups.len() && 0 <= h < p.groups.len() && g != h && (#[trigger] p.groups[g]).name
            == n && (#[trigger] p.groups[h]).name == n
    ||| is_group(p, n) && is_timeline(p, n)
    ||| exists|g: int, m: int|
        0 <= g < p.groups.len() && 0 <= m < p.groups[g].members.len()
            && #[trigger] p.groups[g].members[m] == n && !is_timeline(p, n) && !is_group(p, n)
    ||| exists|g: int|
        0 <= g < p.groups.len() && (#[trigger] p.groups[g]).name == n && !depth_ok(
            p,
            n,
            p.groups.len(),
        )
    ||| exists|i: int| 0 <= i < p.timelines.len() && timeline_offends(p, #[trigger] p.timelines[i], n)
    ||| exists|t: int| 0 <= t < p.tokens.len() && token_offends(p, #[trigger] p.tokens[t], n)
}

/// The structural invariants every problem handed to a solver must meet.
pub open spec fn well_formed(p: ProblemView) -> bool {
    &&& timeline_names_unique(p)
    &&& group_names_ok(p)
    &&& group_members_known(p)
    &&& groups_acyclic(p)
    &&& forall|i: int| 0 <= i < p.timelines.len() ==> timeline_ok(p, #[trigger] p.timelines[i])
    &&& forall|i: int| 0 <= i < p.tokens.len() ==> token_ok(p, #[trigger] p.tokens[i])
}

// ---------------------------------------------------------------------------
// Lookups
// ---------------------------------------------------------------------------

pub(crate) fn find_timeline(p: &Problem, name: &String) -> (r: Option<usize>)
    ensures
        match r {
            Some(i) => i < p@.timelines.len() && p@.timelines[i as int].name == name@,
            None => !is_timeline(p@, name@),
        },
{
    let mut i: usize = 0;
    while i < p.timelines.len()
        invariant
            i <= p.timelines.len(),
            forall|j: int| 0 <= j < i ==> p@.timelines[j].name != name@,
        decreases p.timelines.len() - i,
    {
        if p.timelines[i].name == *name {
            return Some(i);
        }
        i += 1;
    }
    None
}

pub(crate) fn find_group(p: &Problem, name: &String) -> (r: Option<usize>)
    ensures
        match r {
            Some(g) => g < p@.groups.len() && p@.groups[g as int].name == name@,
            None => !is_group(p@, name@),
        },
{
    let mut g: usize = 0;
    while g < p.groups.len()
        invariant
            g <= p.groups.len(),
            forall|h: int| 0 <= h < g ==> p@.groups[h].name != name@,
        decreases p.groups.len() - g,
    {
        if p.groups[g].name == *name {
            return Some(g);
        }
        g += 1;
    }
    None
}

pub(crate) fn find_value(t: &Timeline, name: &String) -> (r: Option<usize>)
    ensures
        match r {
            Some(k) => k < t@.values.len() && t@.values[k as int].name == name@,
            None => !has_value(t@, name@),
        },
{
    let mut k: usize = 0;
    while k < t.values.len()
        invariant
            k <= t.values.len(),
            forall|j: int| 0 <= j < k ==> t@.values[j].name != name@,
        decreases t.values.len() - k,
    {
        if t.values[k].name == *name {
            return Some(k);
        }
        k += 1;
    }
    None
}

// ---------------------------------------------------------------------------
// Group resolution
// ---------------------------------------------------------------------------

fn target_check(p: &Problem, name: &String, value: &String, fuel: usize) -> (r: bool)
    requires
        timeline_names_unique(p@),
        group_names_ok(p@),
    ensures
        r == target_ok(p@, name@, value@, fuel as nat),
    decreases fuel,
{
    match find_timeline(p, name) {
        Some(i) => {
            assert(forall|g: int| 0 <= g < p@.groups.len() ==> p@.groups[g].name != name@) by {
                assert forall|g: int| 0 <= g < p@.groups.len() implies p@.groups[g].name
                    != name@ by {
                    assert(!is_timeline(p@, p@.groups[g].name));
                }
            }
            match find_value(&p.timelines[i], value) {
                Some(k) => {
                    assert(p.timelines@[i as int]@ == p@.timelines[i as int]);
                    assert(has_value(p@.timelines[i as int], value@));
                    true
                },
                None => {
                    assert(p.timelines@[i as int]@ == p@.timelines[i as int]);
                    false
                },
            }
        },
        None => {
            if fuel == 0 {
                return false;
            }
            match find_group(p, name) {
                None => false,
                Some(g) => {
                    let group = &p.groups[g];
                    assert(group@ == p@.groups[g as int]);
                    let mut m: usize = 0;
                    while m < group.members.len()
                        invariant
                            0 < fuel,
                            timeline_names_unique(p@),
                            group_names_ok(p@),
                            g < p@.groups.len(),
                            group@ == p@.groups[g as int],
                            p@.groups[g as int].name == name@,
                            !is_timeline(p@, name@),
                            m <= group.members.len(),
                            forall|j: int|
                                0 <= j < m ==> target_ok(
                                    p@,
                                    #[trigger] p@.groups[g as int].members[j],
                                    value@,
                                    (fuel - 1) as nat,
                                ),
                        decreases group.members.len() - m,
                    {
                        assert(group.members@[m as int]@ == p@.groups[g as int].members[m as int]);
                        if !target_check(p, &group.members[m], value, fuel - 1) {
                            return false;
                        }
                        m += 1;
                    }
                    true
                },
            }
        },
    }
}

fn depth_check(p: &Problem, name: &String, fuel: usize) -> (r: bool)
    requires
        group_names_ok(p@),
    ensures
        r == depth_ok(p@, name@, fuel as nat),
    decreases fuel,
{
    match find_group(p, name) {
        None => true,
        Some(g) => {
            assert(forall|h: int|
                0 <= h < p@.groups.len() && p@.groups[h].name == name@ ==> h == g);
            if fuel == 0 {
                return false;
            }
            let group = &p.groups[g];
            assert(group@ == p@.groups[g as int]);
            let mut m: usize = 0;
            while m < group.members.len()
                invariant
                    0 < fuel,
                    group_names_ok(p@),
                    g < p@.groups.len(),
                    group@ == p@.groups[g as int],
                    p@.groups[g as int].name == name@,
                    forall|h: int| 0 <= h < p@.groups.len() && p@.groups[h].name == name@ ==> h == g,
                    m <= group.members.len(),
                    forall|j: int|
                        0 <= j < m ==> depth_ok(
                            p@,
                            #[trigger] p@.groups[g as int].members[j],
                            (fuel - 1) as nat,
                        ),
                decreases group.members.len() - m,
            {
                assert(group.members@[m as int]@ == p@.groups[g as int].members[m as int]);
                if !depth_check(p, &group.members[m], fuel - 1) {
                    return false;
                }
                m += 1;
            }
            true
        },
    }
}

// ---------------------------------------------------------------------------
// Checks of single entities
// ---------------------------------------------------------------------------

fn conditions_check(p: &Problem, cs: &Vec<Condition>) -> (r: Result<(), String>)
    requires
        timeline_names_unique(p@),
        group_names_ok(p@),
    ensures
        r is Ok <==> conditions_ok(p@, conditions_view(*cs)),
        r is Err ==> conditions_offend(p@, conditions_view(*cs), r->Err_0@),
{
    let mut i: usize = 0;
    while i < cs.len()
        invariant
            timeline_names_unique(p@),
            group_names_ok(p@),
            i <= cs.len(),
            forall|j: int| 0 <= j < i ==> condition_ok(p@, #[trigger] conditions_view(*cs)[j]),
        decreases cs.len() - i,
    {
        let c = &cs[i];
        assert(conditions_view(*cs)[i as int] == c@);
        if c.amount < 1 {
            assert(conditions_view(*cs)[i as int].value == c.value@);
            return Err(c.value.clone());
        }
        let mut k: usize = 0;
        while k < c.object.len()
            invariant
                timeline_names_unique(p@),
                group_names_ok(p@),
                i < cs.len(),
                conditions_view(*cs)[i as int] == c@,
                k <= c.object.len(),
                forall|j: int|
                    0 <= j < k ==> target_ok(p@, #[trigger] c@.object[j], c@.value, p@.groups.len()),
            decreases c.object.len() - k,
        {
            assert(c@.object[k as int] == c.object@[k as int]@);
            if !target_check(p, &c.object[k], &c.value, p.groups.len()) {
                assert(!condition_ok(p@, conditions_view(*cs)[i as int]));
                assert(conditions_view(*cs)[i as int].object[k as int] == c.object@[k as int]@);
                return Err(c.object[k].clone());
            }
            k += 1;
        }
        i += 1;
    }
    Ok(())
}

fn duration_check(d: (usize, Option<usize>)) -> (r: bool)
    ensures
        r == duration_ok(d),
{
    match d.1 {
        Some(m) => d.0 <= m,
        None => true,
    }
}

fn timeline_check(p: &Problem, t: &Timeline) -> (r: Result<(), String>)
    requires
        timeline_names_unique(p@),
        group_names_ok(p@),
    ensures
        r is Ok <==> timeline_ok(p@, t@),
        r is Err ==> timeline_offends(p@, t@, r->Err_0@),
{
    let mut j: usize = 0;
    while j < t.values.len()
        invariant
            timeline_names_unique(p@),
            group_names_ok(p@),
            j <= t.values.len(),
            forall|a: int, b: int|
                0 <= a < j && 0 <= b < j && a != b ==> t@.values[a].name != t@.values[b].name,
            forall|a: int| 0 <= a < j ==> value_ok(p@, #[trigger] t@.values[a]),
        decreases t.values.len() - j,
    {
        let v = &t.values[j];
        assert(t@.values[j as int] == v@);
        let mut k: usize = 0;
        while k < j
            invariant
                j < t.values.len(),
                t@.values[j as int] == v@,
                k <= j,
                forall|b: int| 0 <= b < k ==> t@.values[b].name != v@.name,
            decreases j - k,
        {
            if t.values[k].name == v.name {
                assert(t.values@[k as int]@ == t@.values[k as int]);
                return Err(v.name.clone());
            }
            k += 1;
        }
        if v.capacity < 1 || !duration_check(v.duration) {
            return Err(v.name.clone());
        }
        let c = conditions_check(p, &v.conditions);
        if c.is_err() {
            return c;
        }
        j += 1;
    }
    Ok(())
}

fn time_check(time: TokenTime, d: (usize, Option<usize>)) -> (r: bool)
    ensures
        r == time_ok(time, d),
{
    match time {
        TokenTime::Fact(Bound::Fixed(s), Bound::Fixed(e)) => {
            if s > e {
                return false;
            }
            let len = e - s;
            match d.1 {
                Some(m) => d.0 <= len && len <= m,
                None => d.0 <= len,
            }
        },
        _ => true,
    }
}

fn token_check(p: &Problem, tk: &Token) -> (r: Result<(), String>)
    requires
        timeline_names_unique(p@),
        group_names_ok(p@),
        forall|i: int| 0 <= i < p@.timelines.len() ==> timeline_ok(p@, #[trigger] p@.timelines[i]),
    ensures
        r is Ok <==> token_ok(p@, tk@),
        r is Err ==> token_offends(p@, tk@, r->Err_0@),
{
    if tk.capacity < 1 {
        return Err(tk.value.clone());
    }
    let c = conditions_check(p, &tk.conditions);
    if c.is_err() {
        return c;
    }
    match find_timeline(p, &tk.timeline_name) {
        None => Err(tk.timeline_name.clone()),
        Some(i) => {
            let t = &p.timelines[i];
            assert(t@ == p@.timelines[i as int]);
            assert(timeline_ok(p@, t@));
            match find_value(t, &tk.value) {
                None => Err(tk.value.clone()),
                Some(k) => {
                    assert(t.values@[k as int]@ == t@.values[k as int]);
                    if time_check(tk.const_time, t.values[k].duration) {
                        Ok(())
                    } else {
                        assert forall|a: int, b: int|
                            0 <= a < p@.timelines.len() && 0 <= b
                                < p@.timelines[a].values.len() && p@.timelines[a].name
                                == tk@.timeline_name && p@.timelines[a].values[b].name
                                == tk@.value implies !time_ok(
                            tk@.time,
                            p@.timelines[a].values[b].duration,
                        ) by {
                            assert(a == i);
                            assert(b == k);
                        }
                        Err(tk.value.clone())
                    }
                },
            }
        },
    }
}

// ---------------------------------------------------------------------------
// Whole problems
// ---------------------------------------------------------------------------

fn names_check(p: &Problem) -> (r: Result<(), String>)
    ensures
        r is Ok <==> timeline_names_unique(p@) && group_names_ok(p@),
        r is Err ==> offends(p@, r->Err_0@),
{
    let mut i: usize = 0;
    while i < p.timelines.len()
        invariant
            i <= p.timelines.len(),
            forall|a: int, b: int|
                0 <= a < i && 0 <= b < i && a != b ==> p@.timelines[a].name
                    != p@.timelines[b].name,
        decreases p.timelines.len() - i,
    {
        let mut j: usize = 0;
        while j < i
            invariant
                i < p.timelines.len(),
                j <= i,
                forall|b: int| 0 <= b < j ==> p@.timelines[b].name != p@.timelines[i as int].name,
            decreases i - j,
        {
            assert(p.timelines@[j as int]@ == p@.timelines[j as int]);
            assert(p.timelines@[i as int]@ == p@.timelines[i as int]);
            if p.timelines[j].name == p.timelines[i].name {
                assert(offends(p@, p@.timelines[i as int].name));
                return Err(p.timelines[i].name.clone());
            }
            j += 1;
        }
        i += 1;
    }
    let mut g: usize = 0;
    while g < p.groups.len()
        invariant
            timeline_names_unique(p@),
            g <= p.groups.len(),
            forall|a: int, b: int|
                0 <= a < g && 0 <= b < g && a != b ==> p@.groups[a].name != p@.groups[b].name,
            forall|a: int| 0 <= a < g ==> !is_timeline(p@, #[trigger] p@.groups[a].name),
        decreases p.groups.len() - g,
    {
        let mut h: usize = 0;
        while h < g
            invariant
                g < p.groups.len(),
                h <= g,
                forall|b: int| 0 <= b < h ==> p@.groups[b].name != p@.groups[g as int].name,
            decreases g - h,
        {
            assert(p.groups@[h as int]@ == p@.groups[h as int]);
            assert(p.groups@[g as int]@ == p@.groups[g as int]);
            if p.groups[h].name == p.groups[g].name {
                assert(offends(p@, p@.groups[g as int].name));
                return Err(p.groups[g].name.clone());
            }
            h += 1;
        }
        assert(p.groups@[g as int]@ == p@.groups[g as int]);
        if let Some(i) = find_timeline(p, &p.groups[g].name) {
            assert(is_timeline(p@, p@.groups[g as int].name));
            assert(offends(p@, p@.groups[g as int].name));
            return Err(p.groups[g].name.clone());
        }
        g += 1;
    }
    Ok(())
}

fn groups_check(p: &Problem) -> (r: Result<(), String>)
    requires
        group_names_ok(p@),
    ensures
        r is Ok <==> group_members_known(p@) && groups_acyclic(p@),
        r is Err ==> offends(p@, r->Err_0@),
{
    let mut g: usize = 0;
    while g < p.groups.len()
        invariant
            group_names_ok(p@),
            g <= p.groups.len(),
            forall|a: int, m: int|
                0 <= a < g && 0 <= m < p@.groups[a].members.len() ==> is_timeline(
                    p@,
                    #[trigger] p@.groups[a].members[m],
                ) || is_group(p@, p@.groups[a].members[m]),
            forall|a: int| 0 <= a < g ==> depth_ok(p@, #[trigger] p@.groups[a].name, p@.groups.len()),
        decreases p.groups.len() - g,
    {
        let group = &p.groups[g];
        assert(group@ == p@.groups[g as int]);
        let mut m: usize = 0;
        while m < group.members.len()
            invariant
                g < p.groups.len(),
                group@ == p@.groups[g as int],
                m <= group.members.len(),
                forall|j: int|
                    0 <= j < m ==> is_timeline(p@, #[trigger] p@.groups[g as int].members[j])
                        || is_group(p@, p@.groups[g as int].members[j]),
            decreases group.members.len() - m,
        {
            assert(group.members@[m as int]@ == p@.groups[g as int].members[m as int]);
            if find_timeline(p, &group.members[m]).is_none() && find_group(
                p,
                &group.members[m],
            ).is_none() {
                assert(p@.groups[g as int].members[m as int] == group.members@[m as int]@);
                assert(p@.groups[g as int].members.contains(group.members@[m as int]@));
                assert(offends(p@, group.members@[m as int]@));
                return Err(group.members[m].clone());
            }
            m += 1;
        }
        if !depth_check(p, &group.name, p.groups.len()) {
            assert(offends(p@, p@.groups[g as int].name));
            return Err(group.name.clone());
        }
        g += 1;
    }
    Ok(())
}

/// Checks the structural invariants of a problem; the error names the first
/// offending entity found.
pub fn validate(p: &Problem) -> (r: Result<(), SolveError>)
    ensures
        r is Ok <==> well_formed(p@),
        r is Err ==> r->Err_0 is MalformedProblem && offends(p@, r->Err_0->MalformedProblem_0@),
{
    let n = names_check(p);
    if let Err(name) = n {
        return Err(SolveError::MalformedProblem(name));
    }
    let g = groups_check(p);
    if let Err(name) = g {
        return Err(SolveError::MalformedProblem(name));
    }
    let mut i: usize = 0;
    while i < p.timelines.len()
        invariant
            timeline_names_unique(p@),
            group_names_ok(p@),
            i <= p.timelines.len(),
            forall|a: int| 0 <= a < i ==> timeline_ok(p@, #[trigger] p@.timelines[a]),
        decreases p.timelines.len() - i,
    {
        assert(p.timelines@[i as int]@ == p@.timelines[i as int]);
        let t = timeline_check(p, &p.timelines[i]);
        if let Err(name) = t {
            assert(timeline_offends(p@, p@.timelines[i as int], name@));
            assert(offends(p@, name@));
            return Err(SolveError::MalformedProblem(name));
        }
        i += 1;
    }
    let mut i: usize = 0;
    while i < p.tokens.len()
        invariant
            timeline_names_unique(p@),
            group_names_ok(p@),
            forall|a: int| 0 <= a < p@.timelines.len() ==> timeline_ok(p@, #[trigger] p@.timelines[a]),
            i <= p.tokens.len(),
            forall|a: int| 0 <= a < i ==> token_ok(p@, #[trigger] p@.tokens[a]),
        decreases p.tokens.len() - i,
    {
        assert(p.tokens@[i as int]@ == p@.tokens[i as int]);
        let t = token_check(p, &p.tokens[i]);
        if let Err(name) = t {
            assert(token_offends(p@, p@.tokens[i as int], name@));
            assert(offends(p@, name@));
            return Err(SolveError::MalformedProblem(name));
        }
        i += 1;
    }
    Ok(())
}

/// Builds a problem from its parts, provided it is well formed.
pub fn make_problem(timelines: Vec<Timeline>, groups: Vec<Group>, tokens: Vec<Token>) -> (r: Result<
    Problem,
    SolveError,
>)
    ensures
        r is Ok <==> well_formed(
            ProblemView {
                timelines: timelines@.map_values(|t: Timeline| t@),
                groups: groups@.map_values(|g: Group| g@),
                tokens: tokens@.map_values(|t: Token| t@),
            },
        ),
        r is Ok ==> r->Ok_0.timelines == timelines && r->Ok_0.groups == groups
            && r->Ok_0.tokens == tokens,
        r is Err ==> r->Err_0 is MalformedProblem && offends(
            ProblemView {
                timelines: timelines@.map_values(|t: Timeline| t@),
                groups: groups@.map_values(|g: Group| g@),
                tokens: tokens@.map_values(|t: Token| t@),
            },
            r->Err_0->MalformedProblem_0@,
        ),
{
    let p = Problem { timelines, groups, tokens };
    match validate(&p) {
        Ok(()) => Ok(p),
        Err(e) => Err(e),
    }
}

} // verus!
