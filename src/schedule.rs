use vstd::prelude::*;
use crate::model::{
    Bound, ConditionView, ProblemView, TimelineView, SolutionPy, SolutionTokenView, TemporalRelationship, TokenTime, TokenView,
    ValueView,
};
use crate::problem::Problem;
use crate::validate::{
    duration_admits, find_group, find_timeline, find_value, is_timeline, well_formed, SolveError,
};

verus! {

// ---------------------------------------------------------------------------
// What a schedule must satisfy
// ---------------------------------------------------------------------------

/// Value `k` of timeline `i` is the one a solution token names.
pub open spec fn located(p: ProblemView, x: SolutionTokenView, i: int, k: int) -> bool {
    &&& 0 <= i < p.timelines.len()
    &&& 0 <= k < p.timelines[i].values.len()
    &&& p.timelines[i].name == x.object
    &&& p.timelines[i].values[k].name == x.value
}

/// Every token lies on a known timeline and value, is ordered, and lasts as
/// long as its value's duration interval admits.
pub open spec fn durations_hold(p: ProblemView, s: Seq<SolutionTokenView>) -> bool {
    forall|j: int| 0 <= j < s.len() ==> duration_fits(p, #[trigger] s[j])
}

pub open spec fn duration_fits(p: ProblemView, x: SolutionTokenView) -> bool {
    x.start <= x.end && exists|i: int, k: int|
        located(p, x, i, k) && duration_admits(p.timelines[i].values[k].duration, x.end - x.start)
}

pub open spec fn bound_met(b: Bound, t: int) -> bool {
    match b {
        Bound::Fixed(n) => t == n,
        Bound::Unbounded => true,
    }
}

/// A solution token is a placement of a problem token: same timeline and
/// value, and the fixed bounds of a fact are its endpoints.
pub open spec fn placement_of(time: TokenTime, x: SolutionTokenView) -> bool {
    match time {
        TokenTime::Goal => true,
        TokenTime::Fact(a, b) => bound_met(a, x.start) && bound_met(b, x.end),
    }
}

/// Solution token `j` places problem token `tk`: same timeline and value,
/// the fact's fixed bounds, and the token's own conditions met.
pub open spec fn fits(p: ProblemView, s: Seq<SolutionTokenView>, j: int, tk: TokenView) -> bool {
    &&& 0 <= j < s.len()
    &&& s[j].object == tk.timeline_name
    &&& s[j].value == tk.value
    &&& placement_of(tk.time, s[j])
    &&& conditions_met(p, s, j, tk.conditions)
}

/// `m` gives each problem token a solution token of its own that places it.
pub open spec fn placement_ok(p: ProblemView, s: Seq<SolutionTokenView>, m: Seq<usize>) -> bool {
    &&& m.len() == p.tokens.len()
    &&& forall|t: int| 0 <= t < m.len() ==> fits(p, s, #[trigger] m[t] as int, p.tokens[t])
    &&& forall|t1: int, t2: int|
        0 <= t1 < m.len() && 0 <= t2 < m.len() && t1 != t2 ==> #[trigger] m[t1] != #[trigger] m[t2]
}

/// The smaller of two amounts, where 0 stands for no amount at all.
pub open spec fn least_positive(a: nat, b: nat) -> nat {
    if a == 0 {
        b
    } else if b == 0 {
        a
    } else if a < b {
        a
    } else {
        b
    }
}

/// The smallest amount that one of the first `n` conditions of `cs` asks of
/// value `val` (0 when none does).
pub open spec fn amount_in(cs: Seq<ConditionView>, val: Seq<char>, n: nat) -> nat
    decreases n,
{
    if n == 0 {
        0
    } else {
        let r = amount_in(cs, val, (n - 1) as nat);
        let a: nat = if cs[n - 1].value == val {
            cs[n - 1].amount as nat
        } else {
            0
        };
        least_positive(a, r)
    }
}

pub open spec fn amount_in_values(vs: Seq<ValueView>, val: Seq<char>, n: nat) -> nat
    decreases n,
{
    if n == 0 {
        0
    } else {
        let r = amount_in_values(vs, val, (n - 1) as nat);
        let a = amount_in(vs[n - 1].conditions, val, vs[n - 1].conditions.len());
        least_positive(a, r)
    }
}

pub open spec fn amount_in_timelines(ts: Seq<TimelineView>, val: Seq<char>, n: nat) -> nat
    decreases n,
{
    if n == 0 {
        0
    } else {
        let r = amount_in_timelines(ts, val, (n - 1) as nat);
        let a = amount_in_values(ts[n - 1].values, val, ts[n - 1].values.len());
        least_positive(a, r)
    }
}

pub open spec fn amount_in_tokens(tks: Seq<TokenView>, val: Seq<char>, n: nat) -> nat
    decreases n,
{
    if n == 0 {
        0
    } else {
        let r = amount_in_tokens(tks, val, (n - 1) as nat);
        let a = amount_in(tks[n - 1].conditions, val, tks[n - 1].conditions.len());
        least_positive(a, r)
    }
}

/// What a support token of value `val` consumes. The schedule does not record
/// which condition created a support, so the attribution is left open: any
/// condition asking for `val` may have created it. Capacity can only get
/// harder with larger amounts, so a schedule meets capacity under some
/// attribution exactly when it meets it with each support charged the
/// smallest amount a condition asks of `val` (1 when none asks).
pub open spec fn support_amount(p: ProblemView, val: Seq<char>) -> nat {
    let a = amount_in_timelines(p.timelines, val, p.timelines.len());
    let b = amount_in_tokens(p.tokens, val, p.tokens.len());
    let m = least_positive(a, b);
    if m == 0 {
        1
    } else {
        m
    }
}

/// The amount each solution token consumes once the first `k` problem tokens
/// are placed by `m`: a token placing a problem token consumes that token's
/// capacity; any other token is a support and consumes its support amount.
pub open spec fn weights(p: ProblemView, s: Seq<SolutionTokenView>, m: Seq<usize>, k: nat) -> Seq<nat>
    decreases k,
{
    if k == 0 {
        Seq::new(s.len(), |j: int| support_amount(p, s[j].value))
    } else {
        let w = weights(p, s, m, (k - 1) as nat);
        if m[k - 1] < s.len() {
            w.update(m[k - 1] as int, p.tokens[k - 1].capacity as nat)
        } else {
            w
        }
    }
}

/// `name` is the timeline `obj`, or a group that leads to it through at most
/// `fuel` levels of membership.
pub open spec fn resolves_to(p: ProblemView, name: Seq<char>, obj: Seq<char>, fuel: nat) -> bool
    decreases fuel,
{
    ||| name == obj && is_timeline(p, obj)
    ||| fuel > 0 && exists|g: int, m: int|
        0 <= g < p.groups.len() && p.groups[g].name == name && 0 <= m
            < p.groups[g].members.len() && resolves_to(
            p,
            #[trigger] p.groups[g].members[m],
            obj,
            (fuel - 1) as nat,
        )
}

pub open spec fn in_target(p: ProblemView, object: Seq<Seq<char>>, obj: Seq<char>) -> bool {
    exists|k: int| 0 <= k < object.len() && resolves_to(p, #[trigger] object[k], obj, p.groups.len())
}

/// No other token on B's timeline starts between B's end and A's start:
/// B is followed directly by A.
pub open spec fn nothing_between(s: Seq<SolutionTokenView>, a: int, b: int) -> bool {
    forall|c: int|
        0 <= c < s.len() && c != a && c != b && (#[trigger] s[c]).object == s[b].object ==> !(
        s[b].end <= s[c].start && s[c].start <= s[a].start)
}

/// The relation of token `a` (carrying the condition) to token `b`.
pub open spec fn relation_holds(
    rel: TemporalRelationship,
    s: Seq<SolutionTokenView>,
    a: int,
    b: int,
) -> bool {
    match rel {
        TemporalRelationship::MetBy => s[b].end == s[a].start,
        TemporalRelationship::MetByTransitionFrom => s[b].end == s[a].start && nothing_between(
            s,
            a,
            b,
        ),
        TemporalRelationship::Meets => s[a].end == s[b].start,
        TemporalRelationship::Cover => s[b].start <= s[a].start && s[a].end <= s[b].end,
        TemporalRelationship::Equal => s[a].start == s[b].start && s[a].end == s[b].end,
        TemporalRelationship::StartsAfter => s[a].start > s[b].start,
    }
}

/// Some token other than `j` meets condition `c` of token `j`.
pub open spec fn condition_met(
    p: ProblemView,
    s: Seq<SolutionTokenView>,
    j: int,
    c: ConditionView,
) -> bool {
    exists|b: int|
        0 <= b < s.len() && b != j && s[b].value == c.value && in_target(p, c.object, s[b].object)
            && relation_holds(c.relation, s, j, b)
}

/// Every condition in `cs` is met for token `j` by some other token.
pub open spec fn conditions_met(
    p: ProblemView,
    s: Seq<SolutionTokenView>,
    j: int,
    cs: Seq<ConditionView>,
) -> bool {
    forall|c: int| 0 <= c < cs.len() ==> condition_met(p, s, j, #[trigger] cs[c])
}

/// Every condition of token `j`'s value is met by some other token.
pub open spec fn token_conditions_hold(
    s: Seq<SolutionTokenView>,
    p: ProblemView,
    j: int,
    v: ValueView,
) -> bool {
    forall|c: int| 0 <= c < v.conditions.len() ==> condition_met(p, s, j, #[trigger] v.conditions[c])
}

pub open spec fn conditions_hold(p: ProblemView, s: Seq<SolutionTokenView>) -> bool {
    forall|j: int, i: int, k: int|
        0 <= j < s.len() && #[trigger] located(p, s[j], i, k) ==> token_conditions_hold(
            s,
            p,
            j,
            p.timelines[i].values[k],
        )
}

pub open spec fn active(x: SolutionTokenView, obj: Seq<char>, val: Seq<char>, t: int) -> bool {
    x.object == obj && x.value == val && x.start <= t < x.end
}

/// The summed amount of the first `n` tokens that hold value `val` on `obj`
/// at instant `t`, token `i` weighing `w[i]`.
pub open spec fn count_active(
    s: Seq<SolutionTokenView>,
    w: Seq<nat>,
    n: nat,
    obj: Seq<char>,
    val: Seq<char>,
    t: int,
) -> nat
    decreases n,
{
    if n == 0 {
        0
    } else {
        count_active(s, w, (n - 1) as nat, obj, val, t) + if active(s[n - 1], obj, val, t) {
            w[n - 1]
        } else {
            0nat
        }
    }
}

/// At every instant, the active tokens of each value consume at most its
/// capacity, and tokens of different values on one timeline do not overlap.
pub open spec fn capacity_holds(p: ProblemView, s: Seq<SolutionTokenView>, w: Seq<nat>) -> bool {
    &&& forall|j: int, i: int, k: int, t: int|
        0 <= j < s.len() && #[trigger] located(p, s[j], i, k) ==> #[trigger] count_active(
            s,
            w,
            s.len(),
            s[j].object,
            s[j].value,
            t,
        ) <= p.timelines[i].values[k].capacity
    &&& forall|a: int, b: int|
        0 <= a < s.len() && 0 <= b < s.len() && s[a].object == s[b].object && s[a].value
            != s[b].value ==> #[trigger] s[a].end <= #[trigger] s[b].start || s[b].end <= s[a].start
}

/// Some token on token `a`'s timeline starts at or after `a` ends.
pub open spec fn followed(s: Seq<SolutionTokenView>, a: int) -> bool {
    exists|c: int| 0 <= c < s.len() && s[c].object == s[a].object && s[a].end <= s[c].start
}

/// Some token on token `a`'s timeline is active at the instant `a` ends.
pub open spec fn covered(s: Seq<SolutionTokenView>, a: int) -> bool {
    exists|b: int| 0 <= b < s.len() && s[b].object == s[a].object && s[b].start <= s[a].end < s[b].end
}

/// The tokens of each timeline cover one contiguous interval: wherever a
/// token ends and the timeline goes on, some token holds the timeline there.
pub open spec fn contiguous(s: Seq<SolutionTokenView>) -> bool {
    forall|a: int| 0 <= a < s.len() && #[trigger] followed(s, a) ==> covered(s, a)
}

/// With placement `m`, a schedule meets every duration, fact, condition and
/// capacity of a problem, and leaves no gap on any timeline.
pub open spec fn schedule_valid_with(p: ProblemView, s: Seq<SolutionTokenView>, m: Seq<usize>) -> bool {
    &&& durations_hold(p, s)
    &&& placement_ok(p, s, m)
    &&& conditions_hold(p, s)
    &&& capacity_holds(p, s, weights(p, s, m, p.tokens.len()))
    &&& contiguous(s)
}

/// Some placement of the problem's tokens makes the schedule valid.
pub open spec fn schedule_valid(p: ProblemView, s: Seq<SolutionTokenView>) -> bool {
    exists|m: Seq<usize>| schedule_valid_with(p, s, m)
}

/// Some full placement that starts with `prefix` makes the schedule valid.
pub open spec fn valid_extension(p: ProblemView, s: Seq<SolutionTokenView>, prefix: Seq<usize>) -> bool {
    exists|m: Seq<usize>|
        m.len() == p.tokens.len() && m.subrange(0, prefix.len() as int) == prefix
            && #[trigger] schedule_valid_with(p, s, m)
}

// ---------------------------------------------------------------------------
// Lemmas
// ---------------------------------------------------------------------------

proof fn lemma_located_unique(p: ProblemView, x: SolutionTokenView, i: int, k: int, i2: int, k2: int)
    requires
        well_formed(p),
        located(p, x, i, k),
        located(p, x, i2, k2),
    ensures
        i == i2,
        k == k2,
{
    assert(i == i2);
    let t = p.timelines[i];
    assert(crate::validate::timeline_ok(p, t));
}

// ---------------------------------------------------------------------------
// Checks
// ---------------------------------------------------------------------------

fn locate(p: &Problem, x: &crate::model::SolutionTokenPy) -> (r: Option<(usize, usize)>)
    requires
        well_formed(p@),
    ensures
        r is Some ==> located(p@, x@, r->Some_0.0 as int, r->Some_0.1 as int),
        r is None ==> forall|i: int, k: int| !located(p@, x@, i, k),
{
    match find_timeline(p, &x.object_name) {
        None => None,
        Some(i) => {
            assert(p.timelines@[i as int]@ == p@.timelines[i as int]);
            match find_value(&p.timelines[i], &x.value) {
                None => {
                    proof {
                        if exists|i2: int, k2: int| located(p@, x@, i2, k2) {
                            let (i2, k2) = choose|i2: int, k2: int| located(p@, x@, i2, k2);
                            assert(i2 == i);
                            assert(crate::validate::has_value(p@.timelines[i as int], x@.value));
                        }
                    }
                    None
                },
                Some(k) => {
                    assert(located(p@, x@, i as int, k as int));
                    Some((i, k))
                },
            }
        },
    }
}

fn durations_check(p: &Problem, s: &SolutionPy) -> (r: bool)
    requires
        well_formed(p@),
    ensures
        r == durations_hold(p@, s@),
{
    let mut j: usize = 0;
    while j < s.tokens.len()
        invariant
            well_formed(p@),
            j <= s.tokens.len(),
            s@.len() == s.tokens.len(),
            forall|a: int| 0 <= a < j ==> duration_fits(p@, #[trigger] s@[a]),
        decreases s.tokens.len() - j,
    {
        let x = &s.tokens[j];
        assert(s@[j as int] == x@);
        if x.start_time > x.end_time {
            assert(!duration_fits(p@, s@[j as int]));
            return false;
        }
        match locate(p, x) {
            None => {
                assert(!duration_fits(p@, s@[j as int]));
                return false;
            },
            Some((i, k)) => {
                let v = &p.timelines[i].values[k];
                assert(p.timelines@[i as int]@ == p@.timelines[i as int]);
                assert(p.timelines@[i as int].values@[k as int]@ == p@.timelines[i as int].values[k as int]);
                let len: i128 = (x.end_time as i128) - (x.start_time as i128);
                let ok = match v.duration.1 {
                    Some(m) => (v.duration.0 as i128) <= len && len <= (m as i128),
                    None => (v.duration.0 as i128) <= len,
                };
                if !ok {
                    assert forall|i2: int, k2: int| located(p@, x@, i2, k2) implies !duration_admits(
                        p@.timelines[i2].values[k2].duration,
                        x@.end - x@.start,
                    ) by {
                        lemma_located_unique(p@, x@, i as int, k as int, i2, k2);
                    }
                    assert(!duration_fits(p@, s@[j as int]));
                    return false;
                }
                assert(located(p@, s@[j as int], i as int, k as int) && duration_admits(
                    p@.timelines[i as int].values[k as int].duration,
                    s@[j as int].end - s@[j as int].start,
                ));
                assert(duration_fits(p@, s@[j as int]));
            },
        }
        j += 1;
    }
    assert(durations_hold(p@, s@));
    true
}

fn bound_check(b: Bound, t: i64) -> (r: bool)
    ensures
        r == bound_met(b, t as int),
{
    match b {
        Bound::Fixed(n) => (t as i128) == (n as i128),
        Bound::Unbounded => true,
    }
}

fn placement_check(time: TokenTime, x: &crate::model::SolutionTokenPy) -> (r: bool)
    ensures
        r == placement_of(time, x@),
{
    match time {
        TokenTime::Goal => true,
        TokenTime::Fact(a, b) => bound_check(a, x.start_time) && bound_check(b, x.end_time),
    }
}

fn conditions_met_check(p: &Problem, s: &SolutionPy, j: usize, cs: &Vec<crate::problem::Condition>) -> (r: bool)
    requires
        well_formed(p@),
        j < s@.len(),
    ensures
        r == conditions_met(p@, s@, j as int, crate::problem::conditions_view(*cs)),
{
    let mut c: usize = 0;
    while c < cs.len()
        invariant
            well_formed(p@),
            j < s@.len(),
            c <= cs.len(),
            forall|d: int|
                0 <= d < c ==> condition_met(
                    p@,
                    s@,
                    j as int,
                    #[trigger] crate::problem::conditions_view(*cs)[d],
                ),
        decreases cs.len() - c,
    {
        assert(crate::problem::conditions_view(*cs)[c as int] == cs@[c as int]@);
        if !condition_met_check(p, s, j, &cs[c]) {
            return false;
        }
        c += 1;
    }
    true
}

fn fits_check(p: &Problem, s: &SolutionPy, j: usize, tk: &crate::problem::Token) -> (r: bool)
    requires
        well_formed(p@),
        j < s@.len(),
    ensures
        r == fits(p@, s@, j as int, tk@),
{
    assert(s@[j as int] == s.tokens@[j as int]@);
    let x = &s.tokens[j];
    x.object_name == tk.timeline_name && x.value == tk.value && placement_check(tk.const_time, x)
        && conditions_met_check(p, s, j, &tk.conditions)
}

fn used(m: &Vec<usize>, j: usize) -> (r: bool)
    ensures
        r == m@.contains(j),
{
    let mut i: usize = 0;
    while i < m.len()
        invariant
            i <= m.len(),
            forall|d: int| 0 <= d < i ==> m@[d] != j,
        decreases m.len() - i,
    {
        if m[i] == j {
            assert(m@[i as int] == j);
            return true;
        }
        i += 1;
    }
    false
}

fn extended(v: &Vec<usize>, j: usize) -> (r: Vec<usize>)
    ensures
        r@ == v@.push(j),
{
    let mut r: Vec<usize> = Vec::new();
    let mut i: usize = 0;
    while i < v.len()
        invariant
            i <= v.len(),
            r@ == v@.subrange(0, i as int),
        decreases v.len() - i,
    {
        r.push(v[i]);
        i += 1;
        assert(r@ =~= v@.subrange(0, i as int));
    }
    assert(r@ =~= v@);
    r.push(j);
    r
}

/// Searches every placement that extends `prefix`, backtracking over the
/// solution tokens that can place the next problem token.
fn search(p: &Problem, s: &SolutionPy, prefix: Vec<usize>) -> (r: Option<Vec<usize>>)
    requires
        well_formed(p@),
        prefix@.len() <= p@.tokens.len(),
    ensures
        r is Some ==> schedule_valid_with(p@, s@, r->Some_0@),
        r is None ==> !valid_extension(p@, s@, prefix@),
    decreases p@.tokens.len() - prefix@.len(),
{
    let t = prefix.len();
    if t == p.tokens.len() {
        match check_solution(p, s, &prefix) {
            Ok(()) => {
                return Some(prefix);
            },
            Err(_) => {
                assert forall|m: Seq<usize>|
                    m.len() == p@.tokens.len() && m.subrange(0, prefix@.len() as int) == prefix@
                        implies !#[trigger] schedule_valid_with(p@, s@, m) by {
                    assert(m =~= m.subrange(0, prefix@.len() as int));
                }
                return None;
            },
        }
    }
    let ghost tk = p@.tokens[t as int];
    assert(p.tokens@[t as int]@ == tk);
    let mut j: usize = 0;
    while j < s.tokens.len()
        invariant
            well_formed(p@),
            s@.len() == s.tokens.len(),
            t == prefix@.len(),
            t < p@.tokens.len(),
            p@.tokens.len() == p.tokens.len(),
            tk == p@.tokens[t as int],
            j <= s.tokens.len(),
            forall|d: int| 0 <= d < j ==> !#[trigger] valid_extension(p@, s@, prefix@.push(d as usize)),
        decreases s.tokens.len() - j,
    {
        if !used(&prefix, j) && fits_check(p, s, j, &p.tokens[t]) {
            let next = extended(&prefix, j);
            match search(p, s, next) {
                Some(m) => {
                    return Some(m);
                },
                None => {},
            }
        } else {
            assert forall|m: Seq<usize>|
                m.len() == p@.tokens.len() && m.subrange(0, t + 1) == prefix@.push(j)
                    implies !#[trigger] schedule_valid_with(p@, s@, m) by {
                assert(m[t as int] == m.subrange(0, t + 1)[t as int]);
                assert(prefix@.push(j)[t as int] == j);
                if schedule_valid_with(p@, s@, m) {
                    if prefix@.contains(j) {
                        let i = choose|i: int| 0 <= i < prefix@.len() && prefix@[i] == j;
                        assert(m[i] == m.subrange(0, t + 1)[i]);
                        assert(prefix@.push(j)[i] == j);
                        assert(m[i] != m[t as int]);
                    } else {
                        assert(fits(p@, s@, m[t as int] as int, p@.tokens[t as int]));
                    }
                }
            }
        }
        j += 1;
    }
    assert forall|m: Seq<usize>|
        m.len() == p@.tokens.len() && m.subrange(0, t as int) == prefix@
            implies !#[trigger] schedule_valid_with(p@, s@, m) by {
        if schedule_valid_with(p@, s@, m) {
            assert(fits(p@, s@, m[t as int] as int, p@.tokens[t as int]));
            let d = m[t as int];
            assert(m.subrange(0, t + 1) =~= prefix@.push(d));
            let di = d as int;
            assert(0 <= di < s@.len());
            assert(!valid_extension(p@, s@, prefix@.push(di as usize)));
            assert(prefix@.push(di as usize) == prefix@.push(d));
            assert(valid_extension(p@, s@, prefix@.push(d)));
        }
    }
    None
}

fn placement_valid_check(p: &Problem, s: &SolutionPy, m: &Vec<usize>) -> (r: bool)
    requires
        well_formed(p@),
    ensures
        r == placement_ok(p@, s@, m@),
{
    if m.len() != p.tokens.len() {
        return false;
    }
    let mut t: usize = 0;
    while t < m.len()
        invariant
            well_formed(p@),
            m@.len() == p@.tokens.len(),
            s@.len() == s.tokens.len(),
            t <= m.len(),
            forall|a: int| 0 <= a < t ==> fits(p@, s@, #[trigger] m@[a] as int, p@.tokens[a]),
        decreases m.len() - t,
    {
        assert(p.tokens@[t as int]@ == p@.tokens[t as int]);
        if m[t] >= s.tokens.len() || !fits_check(p, s, m[t], &p.tokens[t]) {
            assert(!fits(p@, s@, m@[t as int] as int, p@.tokens[t as int]));
            return false;
        }
        t += 1;
    }
    let mut a: usize = 0;
    while a < m.len()
        invariant
            m@.len() == p@.tokens.len(),
            a <= m.len(),
            forall|t: int| 0 <= t < m@.len() ==> fits(p@, s@, #[trigger] m@[t] as int, p@.tokens[t]),
            forall|t1: int, t2: int|
                0 <= t1 < a && 0 <= t2 < a && t1 != t2 ==> #[trigger] m@[t1] != #[trigger] m@[t2],
        decreases m.len() - a,
    {
        let mut b: usize = 0;
        while b < a
            invariant
                a < m.len(),
                b <= a,
                forall|t2: int| 0 <= t2 < b ==> m@[a as int] != #[trigger] m@[t2],
            decreases a - b,
        {
            if m[a] == m[b] {
                assert(m@[a as int] == m@[b as int]);
                return false;
            }
            b += 1;
        }
        a += 1;
    }
    true
}

fn resolves_check(p: &Problem, name: &String, obj: &String, fuel: usize) -> (r: bool)
    requires
        well_formed(p@),
    ensures
        r == resolves_to(p@, name@, obj@, fuel as nat),
    decreases fuel,
{
    if *name == *obj && find_timeline(p, obj).is_some() {
        return true;
    }
    if fuel == 0 {
        return false;
    }
    match find_group(p, name) {
        None => false,
        Some(g) => {
            let group = &p.groups[g];
            assert(group@ == p@.groups[g as int]);
            assert(forall|h: int| 0 <= h < p@.groups.len() && p@.groups[h].name == name@ ==> h == g);
            let mut m: usize = 0;
            while m < group.members.len()
                invariant
                    0 < fuel,
                    well_formed(p@),
                    g < p@.groups.len(),
                    group@ == p@.groups[g as int],
                    p@.groups[g as int].name == name@,
                    m <= group.members.len(),
                    forall|j: int|
                        0 <= j < m ==> !resolves_to(
                            p@,
                            #[trigger] p@.groups[g as int].members[j],
                            obj@,
                            (fuel - 1) as nat,
                        ),
                decreases group.members.len() - m,
            {
                assert(group.members@[m as int]@ == p@.groups[g as int].members[m as int]);
                if resolves_check(p, &group.members[m], obj, fuel - 1) {
                    return true;
                }
                m += 1;
            }
            false
        },
    }
}

fn in_target_check(p: &Problem, object: &Vec<String>, obj: &String) -> (r: bool)
    requires
        well_formed(p@),
    ensures
        r == in_target(p@, crate::model::strings_view(*object), obj@),
{
    let mut k: usize = 0;
    while k < object.len()
        invariant
            well_formed(p@),
            k <= object.len(),
            forall|j: int|
                0 <= j < k ==> !resolves_to(
                    p@,
                    #[trigger] crate::model::strings_view(*object)[j],
                    obj@,
                    p@.groups.len(),
                ),
        decreases object.len() - k,
    {
        assert(crate::model::strings_view(*object)[k as int] == object@[k as int]@);
        if resolves_check(p, &object[k], obj, p.groups.len()) {
            return true;
        }
        k += 1;
    }
    false
}

fn nothing_between_check(s: &SolutionPy, a: usize, b: usize) -> (r: bool)
    requires
        a < s@.len(),
        b < s@.len(),
    ensures
        r == nothing_between(s@, a as int, b as int),
{
    let mut c: usize = 0;
    while c < s.tokens.len()
        invariant
            a < s@.len(),
            b < s@.len(),
            s@.len() == s.tokens.len(),
            c <= s.tokens.len(),
            forall|d: int|
                0 <= d < c && d != a && d != b && (#[trigger] s@[d]).object == s@[b as int].object
                    ==> !(s@[b as int].end <= s@[d].start && s@[d].start <= s@[a as int].start),
        decreases s.tokens.len() - c,
    {
        assert(s@[c as int] == s.tokens@[c as int]@);
        assert(s@[a as int] == s.tokens@[a as int]@);
        assert(s@[b as int] == s.tokens@[b as int]@);
        if c != a && c != b && s.tokens[c].object_name == s.tokens[b].object_name
            && s.tokens[b].end_time <= s.tokens[c].start_time && s.tokens[c].start_time
            <= s.tokens[a].start_time {
            assert(s@[c as int].object == s@[b as int].object);
            assert(!nothing_between(s@, a as int, b as int));
            return false;
        }
        c += 1;
    }
    true
}

fn relation_check(rel: TemporalRelationship, s: &SolutionPy, a: usize, b: usize) -> (r: bool)
    requires
        a < s@.len(),
        b < s@.len(),
    ensures
        r == relation_holds(rel, s@, a as int, b as int),
{
    assert(s@[a as int] == s.tokens@[a as int]@);
    assert(s@[b as int] == s.tokens@[b as int]@);
    let x = &s.tokens[a];
    let y = &s.tokens[b];
    match rel {
        TemporalRelationship::MetBy => y.end_time == x.start_time,
        TemporalRelationship::MetByTransitionFrom => y.end_time == x.start_time
            && nothing_between_check(s, a, b),
        TemporalRelationship::Meets => x.end_time == y.start_time,
        TemporalRelationship::Cover => y.start_time <= x.start_time && x.end_time <= y.end_time,
        TemporalRelationship::Equal => x.start_time == y.start_time && x.end_time == y.end_time,
        TemporalRelationship::StartsAfter => x.start_time > y.start_time,
    }
}

fn condition_met_check(p: &Problem, s: &SolutionPy, j: usize, c: &crate::problem::Condition) -> (r: bool)
    requires
        well_formed(p@),
        j < s@.len(),
    ensures
        r == condition_met(p@, s@, j as int, c@),
{
    let mut b: usize = 0;
    while b < s.tokens.len()
        invariant
            well_formed(p@),
            j < s@.len(),
            s@.len() == s.tokens.len(),
            b <= s.tokens.len(),
            forall|d: int|
                0 <= d < b ==> !(d != j && #[trigger] s@[d].value == c@.value && in_target(
                    p@,
                    c@.object,
                    s@[d].object,
                ) && relation_holds(c@.relation, s@, j as int, d)),
        decreases s.tokens.len() - b,
    {
        assert(s@[b as int] == s.tokens@[b as int]@);
        if b != j && s.tokens[b].value == c.value && in_target_check(
            p,
            &c.object,
            &s.tokens[b].object_name,
        ) && relation_check(c.temporal_relationship, s, j, b) {
            return true;
        }
        b += 1;
    }
    false
}

fn conditions_check(p: &Problem, s: &SolutionPy) -> (r: bool)
    requires
        well_formed(p@),
    ensures
        r == conditions_hold(p@, s@),
{
    let mut j: usize = 0;
    while j < s.tokens.len()
        invariant
            well_formed(p@),
            s@.len() == s.tokens.len(),
            j <= s.tokens.len(),
            forall|a: int, i: int, k: int|
                0 <= a < j && #[trigger] located(p@, s@[a], i, k) ==> token_conditions_hold(
                    s@,
                    p@,
                    a,
                    p@.timelines[i].values[k],
                ),
        decreases s.tokens.len() - j,
    {
        assert(s@[j as int] == s.tokens@[j as int]@);
        if let Some((i, k)) = locate(p, &s.tokens[j]) {
            let v = &p.timelines[i].values[k];
            assert(p.timelines@[i as int]@ == p@.timelines[i as int]);
            assert(p.timelines@[i as int].values@[k as int]@ == p@.timelines[i as int].values[k as int]);
            assert(v@ == p@.timelines[i as int].values[k as int]);
            let mut c: usize = 0;
            while c < v.conditions.len()
                invariant
                    well_formed(p@),
                    s@.len() == s.tokens.len(),
                    j < s.tokens.len(),
                    located(p@, s@[j as int], i as int, k as int),
                    v@ == p@.timelines[i as int].values[k as int],
                    forall|a: int, i2: int, k2: int|
                        0 <= a < j && #[trigger] located(p@, s@[a], i2, k2) ==> token_conditions_hold(
                            s@,
                            p@,
                            a,
                            p@.timelines[i2].values[k2],
                        ),
                    c <= v.conditions.len(),
                    forall|d: int|
                        0 <= d < c ==> condition_met(p@, s@, j as int, #[trigger] v@.conditions[d]),
                decreases v.conditions.len() - c,
            {
                assert(v@.conditions[c as int] == v.conditions@[c as int]@);
                if !condition_met_check(p, s, j, &v.conditions[c]) {
                    assert(!condition_met(p@, s@, j as int, v@.conditions[c as int]));
                    assert forall|i2: int, k2: int| #[trigger]
                        located(p@, s@[j as int], i2, k2) implies !token_conditions_hold(
                        s@,
                        p@,
                        j as int,
                        p@.timelines[i2].values[k2],
                    ) by {
                        lemma_located_unique(p@, s@[j as int], i as int, k as int, i2, k2);
                    }
                    return false;
                }
                c += 1;
            }
            assert forall|a: int, i2: int, k2: int|
                0 <= a < j + 1 && #[trigger] located(p@, s@[a], i2, k2) implies token_conditions_hold(
                s@,
                p@,
                a,
                p@.timelines[i2].values[k2],
            ) by {
                if a == j {
                    lemma_located_unique(p@, s@[j as int], i as int, k as int, i2, k2);
                }
            }
        }
        j += 1;
    }
    true
}

proof fn lemma_count_monotone(
    s: Seq<SolutionTokenView>,
    w: Seq<nat>,
    n: nat,
    obj: Seq<char>,
    val: Seq<char>,
    t: int,
    t2: int,
)
    requires
        n <= s.len(),
        forall|i: int| 0 <= i < n && active(#[trigger] s[i], obj, val, t) ==> active(s[i], obj, val, t2),
    ensures
        count_active(s, w, n, obj, val, t) <= count_active(s, w, n, obj, val, t2),
    decreases n,
{
    if n > 0 {
        lemma_count_monotone(s, w, (n - 1) as nat, obj, val, t, t2);
    }
}

proof fn lemma_count_none(
    s: Seq<SolutionTokenView>,
    w: Seq<nat>,
    n: nat,
    obj: Seq<char>,
    val: Seq<char>,
    t: int,
)
    requires
        n <= s.len(),
        forall|i: int| 0 <= i < n ==> !active(#[trigger] s[i], obj, val, t),
    ensures
        count_active(s, w, n, obj, val, t) == 0,
    decreases n,
{
    if n > 0 {
        lemma_count_none(s, w, (n - 1) as nat, obj, val, t);
    }
}

/// Among the first `n` tokens active at `t`, one that started last.
proof fn lemma_latest_active(
    s: Seq<SolutionTokenView>,
    n: nat,
    obj: Seq<char>,
    val: Seq<char>,
    t: int,
) -> (j: int)
    requires
        n <= s.len(),
        exists|i: int| 0 <= i < n && active(s[i], obj, val, t),
    ensures
        0 <= j < n,
        active(s[j], obj, val, t),
        forall|i: int| 0 <= i < n && active(#[trigger] s[i], obj, val, t) ==> s[i].start <= s[j].start,
    decreases n,
{
    let last = (n - 1) as int;
    if exists|i: int| 0 <= i < n - 1 && active(s[i], obj, val, t) {
        let j0 = lemma_latest_active(s, (n - 1) as nat, obj, val, t);
        if active(s[last], obj, val, t) && s[last].start > s[j0].start {
            last
        } else {
            j0
        }
    } else {
        last
    }
}

/// A bound on the active amount at every token start of a value bounds it at
/// every instant: the amount can only rise where some token starts.
proof fn lemma_capacity_from_starts(
    s: Seq<SolutionTokenView>,
    w: Seq<nat>,
    obj: Seq<char>,
    val: Seq<char>,
    cap: int,
)
    requires
        forall|j: int|
            0 <= j < s.len() && (#[trigger] s[j]).object == obj && s[j].value == val ==> count_active(
                s,
                w,
                s.len(),
                obj,
                val,
                s[j].start,
            ) <= cap,
        cap >= 0,
    ensures
        forall|t: int| #[trigger] count_active(s, w, s.len(), obj, val, t) <= cap,
{
    assert forall|t: int| #[trigger] count_active(s, w, s.len(), obj, val, t) <= cap by {
        if exists|i: int| 0 <= i < s.len() && active(s[i], obj, val, t) {
            let j = lemma_latest_active(s, s.len(), obj, val, t);
            lemma_count_monotone(s, w, s.len(), obj, val, t, s[j].start);
        } else {
            lemma_count_none(s, w, s.len(), obj, val, t);
        }
    }
}

pub open spec fn nat_weights(w: Seq<u64>) -> Seq<nat> {
    w.map_values(|x: u64| x as nat)
}

proof fn lemma_weights_len(p: ProblemView, s: Seq<SolutionTokenView>, m: Seq<usize>, k: nat)
    ensures
        weights(p, s, m, k).len() == s.len(),
    decreases k,
{
    if k > 0 {
        lemma_weights_len(p, s, m, (k - 1) as nat);
    }
}

/// A placed problem token's solution token weighs that token's capacity.
proof fn lemma_weights_placed(p: ProblemView, s: Seq<SolutionTokenView>, m: Seq<usize>, k: nat, t: int)
    requires
        k <= m.len(),
        0 <= t < k,
        m[t] < s.len(),
        forall|t1: int, t2: int|
            0 <= t1 < m.len() && 0 <= t2 < m.len() && t1 != t2 ==> #[trigger] m[t1] != #[trigger] m[t2],
    ensures
        weights(p, s, m, k)[m[t] as int] == p.tokens[t].capacity as nat,
    decreases k,
{
    lemma_weights_len(p, s, m, (k - 1) as nat);
    if t < k - 1 {
        lemma_weights_placed(p, s, m, (k - 1) as nat, t);
    }
}

fn least_positive_check(a: u32, b: u32) -> (r: u32)
    ensures
        r as nat == least_positive(a as nat, b as nat),
{
    if a == 0 {
        b
    } else if b == 0 {
        a
    } else if a < b {
        a
    } else {
        b
    }
}

fn amount_in_check(cs: &Vec<crate::problem::Condition>, val: &String) -> (r: u32)
    ensures
        r as nat == amount_in(crate::problem::conditions_view(*cs), val@, cs@.len() as nat),
{
    let ghost v = crate::problem::conditions_view(*cs);
    let mut r: u32 = 0;
    let mut i: usize = 0;
    while i < cs.len()
        invariant
            v == crate::problem::conditions_view(*cs),
            i <= cs.len(),
            r as nat == amount_in(v, val@, i as nat),
        decreases cs.len() - i,
    {
        assert(v[i as int] == cs@[i as int]@);
        if cs[i].value == *val {
            r = least_positive_check(cs[i].amount, r);
        }
        i += 1;
    }
    r
}

fn support_amount_check(p: &Problem, val: &String) -> (r: u32)
    ensures
        r as nat == support_amount(p@, val@),
{
    let mut a: u32 = 0;
    let mut i: usize = 0;
    while i < p.timelines.len()
        invariant
            i <= p.timelines.len(),
            p@.timelines.len() == p.timelines.len(),
            a as nat == amount_in_timelines(p@.timelines, val@, i as nat),
        decreases p.timelines.len() - i,
    {
        let t = &p.timelines[i];
        assert(t@ == p@.timelines[i as int]);
        let mut b: u32 = 0;
        let mut k: usize = 0;
        while k < t.values.len()
            invariant
                k <= t.values.len(),
                t@.values.len() == t.values.len(),
                b as nat == amount_in_values(t@.values, val@, k as nat),
            decreases t.values.len() - k,
        {
            assert(t@.values[k as int] == t.values@[k as int]@);
            let c = amount_in_check(&t.values[k].conditions, val);
            b = least_positive_check(c, b);
            k += 1;
        }
        a = least_positive_check(b, a);
        i += 1;
    }
    let mut b: u32 = 0;
    let mut i: usize = 0;
    while i < p.tokens.len()
        invariant
            i <= p.tokens.len(),
            p@.tokens.len() == p.tokens.len(),
            b as nat == amount_in_tokens(p@.tokens, val@, i as nat),
        decreases p.tokens.len() - i,
    {
        assert(p@.tokens[i as int] == p.tokens@[i as int]@);
        let c = amount_in_check(&p.tokens[i].conditions, val);
        b = least_positive_check(c, b);
        i += 1;
    }
    let m = least_positive_check(a, b);
    if m == 0 {
        1
    } else {
        m
    }
}

/// A solution token that places no problem token weighs its support amount.
proof fn lemma_weights_support(p: ProblemView, s: Seq<SolutionTokenView>, m: Seq<usize>, k: nat, j: int)
    requires
        k <= m.len(),
        0 <= j < s.len(),
        forall|t: int| 0 <= t < k ==> m[t] != j,
    ensures
        weights(p, s, m, k)[j] == support_amount(p, s[j].value),
    decreases k,
{
    if k > 0 {
        lemma_weights_support(p, s, m, (k - 1) as nat, j);
        lemma_weights_len(p, s, m, (k - 1) as nat);
        assert(m[k - 1] != j);
    }
}

fn weights_vec(p: &Problem, s: &SolutionPy, m: &Vec<usize>) -> (w: Vec<u64>)
    requires
        m@.len() == p@.tokens.len(),
    ensures
        nat_weights(w@) == weights(p@, s@, m@, p@.tokens.len()),
        w@.len() == s@.len(),
        forall|j: int| 0 <= j < w@.len() ==> #[trigger] w@[j] <= 0xFFFF_FFFF,
{
    let ghost n = s@.len();
    let mut w: Vec<u64> = Vec::new();
    let mut j: usize = 0;
    while j < s.tokens.len()
        invariant
            n == s@.len(),
            s@.len() == s.tokens.len(),
            j <= s.tokens.len(),
            w@.len() == j,
            forall|i: int| 0 <= i < j ==> #[trigger] w@[i] as nat == support_amount(p@, s@[i].value),
            forall|i: int| 0 <= i < j ==> #[trigger] w@[i] <= 0xFFFF_FFFF,
        decreases s.tokens.len() - j,
    {
        assert(s@[j as int] == s.tokens@[j as int]@);
        let a = support_amount_check(p, &s.tokens[j].value);
        w.push(a as u64);
        j += 1;
    }
    let mut t: usize = 0;
    proof {
        lemma_weights_len(p@, s@, m@, 0);
    }
    while t < m.len()
        invariant
            n == s@.len(),
            s@.len() == s.tokens.len(),
            m@.len() == p@.tokens.len(),
            p@.tokens.len() == p.tokens.len(),
            t <= m.len(),
            w@.len() == n,
            weights(p@, s@, m@, t as nat).len() == n,
            forall|i: int| 0 <= i < n ==> #[trigger] w@[i] as nat == weights(p@, s@, m@, t as nat)[i],
            forall|i: int| 0 <= i < n ==> #[trigger] w@[i] <= 0xFFFF_FFFF,
        decreases m.len() - t,
    {
        proof {
            lemma_weights_len(p@, s@, m@, (t + 1) as nat);
        }
        assert(p.tokens@[t as int]@ == p@.tokens[t as int]);
        if m[t] < s.tokens.len() {
            w.set(m[t], p.tokens[t].capacity as u64);
        }
        t += 1;
    }
    assert(nat_weights(w@) =~= weights(p@, s@, m@, p@.tokens.len()));
    w
}

fn count_check(s: &SolutionPy, w: &Vec<u64>, j: usize) -> (r: u128)
    requires
        j < s@.len(),
        w@.len() == s@.len(),
        forall|i: int| 0 <= i < w@.len() ==> #[trigger] w@[i] <= 0xFFFF_FFFF,
    ensures
        r == count_active(
            s@,
            nat_weights(w@),
            s@.len(),
            s@[j as int].object,
            s@[j as int].value,
            s@[j as int].start,
        ),
{
    let ghost obj = s@[j as int].object;
    let ghost val = s@[j as int].value;
    let ghost t = s@[j as int].start;
    let ghost wn = nat_weights(w@);
    assert(s@[j as int] == s.tokens@[j as int]@);
    let mut cnt: u128 = 0;
    let mut m: usize = 0;
    while m < s.tokens.len()
        invariant
            j < s@.len(),
            s@.len() == s.tokens.len(),
            w@.len() == s@.len(),
            wn == nat_weights(w@),
            forall|i: int| 0 <= i < w@.len() ==> #[trigger] w@[i] <= 0xFFFF_FFFF,
            obj == s@[j as int].object,
            val == s@[j as int].value,
            t == s@[j as int].start,
            s@[j as int] == s.tokens@[j as int]@,
            m <= s.tokens.len(),
            cnt <= (m as int) * 0x1_0000_0000,
            cnt == count_active(s@, wn, m as nat, obj, val, t),
        decreases s.tokens.len() - m,
    {
        assert(s@[m as int] == s.tokens@[m as int]@);
        let y = &s.tokens[m];
        assert(wn[m as int] == w@[m as int] as nat);
        if y.object_name == s.tokens[j].object_name && y.value == s.tokens[j].value
            && y.start_time <= s.tokens[j].start_time && s.tokens[j].start_time < y.end_time {
            cnt = cnt + w[m] as u128;
        }
        m += 1;
    }
    cnt
}

fn exclusive_check(s: &SolutionPy) -> (r: bool)
    ensures
        r == (forall|a: int, b: int|
            0 <= a < s@.len() && 0 <= b < s@.len() && s@[a].object == s@[b].object && s@[a].value
                != s@[b].value ==> #[trigger] s@[a].end <= #[trigger] s@[b].start || s@[b].end
                <= s@[a].start),
{
    let mut a: usize = 0;
    while a < s.tokens.len()
        invariant
            s@.len() == s.tokens.len(),
            a <= s.tokens.len(),
            forall|a2: int, b: int|
                0 <= a2 < a && 0 <= b < s@.len() && s@[a2].object == s@[b].object && s@[a2].value
                    != s@[b].value ==> #[trigger] s@[a2].end <= #[trigger] s@[b].start || s@[b].end
                    <= s@[a2].start,
        decreases s.tokens.len() - a,
    {
        let mut b: usize = 0;
        assert(s@[a as int] == s.tokens@[a as int]@);
        while b < s.tokens.len()
            invariant
                s@.len() == s.tokens.len(),
                a < s.tokens.len(),
                s@[a as int] == s.tokens@[a as int]@,
                b <= s.tokens.len(),
                forall|a2: int, b2: int|
                    0 <= a2 < a && 0 <= b2 < s@.len() && s@[a2].object == s@[b2].object
                        && s@[a2].value != s@[b2].value ==> #[trigger] s@[a2].end
                        <= #[trigger] s@[b2].start || s@[b2].end <= s@[a2].start,
                forall|b2: int|
                    0 <= b2 < b && s@[a as int].object == s@[b2].object && s@[a as int].value
                        != s@[b2].value ==> s@[a as int].end <= #[trigger] s@[b2].start
                        || s@[b2].end <= s@[a as int].start,
            decreases s.tokens.len() - b,
        {
            assert(s@[b as int] == s.tokens@[b as int]@);
            let x = &s.tokens[a];
            let y = &s.tokens[b];
            if x.object_name == y.object_name && x.value != y.value && !(x.end_time <= y.start_time
                || y.end_time <= x.start_time) {
                assert(!(s@[a as int].end <= s@[b as int].start || s@[b as int].end
                    <= s@[a as int].start));
                return false;
            }
            b += 1;
        }
        a += 1;
    }
    true
}

fn capacity_check(p: &Problem, s: &SolutionPy, w: &Vec<u64>) -> (r: bool)
    requires
        well_formed(p@),
        w@.len() == s@.len(),
        forall|i: int| 0 <= i < w@.len() ==> #[trigger] w@[i] <= 0xFFFF_FFFF,
    ensures
        r == capacity_holds(p@, s@, nat_weights(w@)),
{
    let ghost wn = nat_weights(w@);
    let mut j: usize = 0;
    while j < s.tokens.len()
        invariant
            well_formed(p@),
            s@.len() == s.tokens.len(),
            w@.len() == s@.len(),
            wn == nat_weights(w@),
            forall|i: int| 0 <= i < w@.len() ==> #[trigger] w@[i] <= 0xFFFF_FFFF,
            j <= s.tokens.len(),
            forall|a: int, i: int, k: int|
                0 <= a < j && #[trigger] located(p@, s@[a], i, k) ==> count_active(
                    s@,
                    wn,
                    s@.len(),
                    s@[a].object,
                    s@[a].value,
                    s@[a].start,
                ) <= p@.timelines[i].values[k].capacity,
        decreases s.tokens.len() - j,
    {
        assert(s@[j as int] == s.tokens@[j as int]@);
        if let Some((i, k)) = locate(p, &s.tokens[j]) {
            assert(p.timelines@[i as int]@ == p@.timelines[i as int]);
            assert(p.timelines@[i as int].values@[k as int]@ == p@.timelines[i as int].values[k as int]);
            let cnt = count_check(s, w, j);
            if cnt > p.timelines[i].values[k].capacity as u128 {
                assert(!(count_active(
                    s@,
                    wn,
                    s@.len(),
                    s@[j as int].object,
                    s@[j as int].value,
                    s@[j as int].start,
                ) <= p@.timelines[i as int].values[k as int].capacity));
                return false;
            }
            assert forall|a: int, i2: int, k2: int|
                0 <= a < j + 1 && #[trigger] located(p@, s@[a], i2, k2) implies count_active(
                s@,
                wn,
                s@.len(),
                s@[a].object,
                s@[a].value,
                s@[a].start,
            ) <= p@.timelines[i2].values[k2].capacity by {
                if a == j {
                    lemma_located_unique(p@, s@[j as int], i as int, k as int, i2, k2);
                }
            }
        }
        j += 1;
    }
    assert forall|j2: int, i: int, k: int, t: int|
        0 <= j2 < s@.len() && #[trigger] located(p@, s@[j2], i, k) implies #[trigger] count_active(
        s@,
        wn,
        s@.len(),
        s@[j2].object,
        s@[j2].value,
        t,
    ) <= p@.timelines[i].values[k].capacity by {
        let obj = s@[j2].object;
        let val = s@[j2].value;
        assert forall|a: int|
            0 <= a < s@.len() && (#[trigger] s@[a]).object == obj && s@[a].value == val implies count_active(
            s@,
            wn,
            s@.len(),
            obj,
            val,
            s@[a].start,
        ) <= p@.timelines[i].values[k].capacity by {
            assert(located(p@, s@[a], i, k));
        }
        lemma_capacity_from_starts(s@, wn, obj, val, p@.timelines[i].values[k].capacity as int);
    }
    exclusive_check(s)
}

fn followed_check(s: &SolutionPy, a: usize) -> (r: bool)
    requires
        a < s@.len(),
    ensures
        r == followed(s@, a as int),
{
    assert(s@[a as int] == s.tokens@[a as int]@);
    let mut c: usize = 0;
    while c < s.tokens.len()
        invariant
            a < s@.len(),
            s@.len() == s.tokens.len(),
            s@[a as int] == s.tokens@[a as int]@,
            c <= s.tokens.len(),
            forall|d: int|
                0 <= d < c ==> !((#[trigger] s@[d]).object == s@[a as int].object && s@[a as int].end
                    <= s@[d].start),
        decreases s.tokens.len() - c,
    {
        assert(s@[c as int] == s.tokens@[c as int]@);
        if s.tokens[c].object_name == s.tokens[a].object_name && s.tokens[a].end_time
            <= s.tokens[c].start_time {
            return true;
        }
        c += 1;
    }
    false
}

fn covered_check(s: &SolutionPy, a: usize) -> (r: bool)
    requires
        a < s@.len(),
    ensures
        r == covered(s@, a as int),
{
    assert(s@[a as int] == s.tokens@[a as int]@);
    let mut b: usize = 0;
    while b < s.tokens.len()
        invariant
            a < s@.len(),
            s@.len() == s.tokens.len(),
            s@[a as int] == s.tokens@[a as int]@,
            b <= s.tokens.len(),
            forall|d: int|
                0 <= d < b ==> !((#[trigger] s@[d]).object == s@[a as int].object && s@[d].start
                    <= s@[a as int].end && s@[a as int].end < s@[d].end),
        decreases s.tokens.len() - b,
    {
        assert(s@[b as int] == s.tokens@[b as int]@);
        if s.tokens[b].object_name == s.tokens[a].object_name && s.tokens[b].start_time
            <= s.tokens[a].end_time && s.tokens[a].end_time < s.tokens[b].end_time {
            return true;
        }
        b += 1;
    }
    false
}

fn contiguous_check(s: &SolutionPy) -> (r: bool)
    ensures
        r == contiguous(s@),
{
    let mut a: usize = 0;
    while a < s.tokens.len()
        invariant
            s@.len() == s.tokens.len(),
            a <= s.tokens.len(),
            forall|d: int| 0 <= d < a && #[trigger] followed(s@, d) ==> covered(s@, d),
        decreases s.tokens.len() - a,
    {
        if followed_check(s, a) && !covered_check(s, a) {
            return false;
        }
        a += 1;
    }
    true
}

// ---------------------------------------------------------------------------
// Public entry points
// ---------------------------------------------------------------------------

/// Decides whether a schedule, with problem token `t` placed by solution
/// token `placement[t]`, satisfies a well-formed problem; a schedule that does
/// not is reported as `Internal`, a broken solver invariant.
pub fn check_solution(p: &Problem, s: &SolutionPy, placement: &Vec<usize>) -> (r: Result<(), SolveError>)
    requires
        well_formed(p@),
    ensures
        r is Ok <==> schedule_valid_with(p@, s@, placement@),
        r is Err ==> r->Err_0 is Internal,
{
    if durations_check(p, s) && placement_valid_check(p, s, placement) && conditions_check(p, s) {
        let w = weights_vec(p, s, placement);
        if capacity_check(p, s, &w) && contiguous_check(s) {
            return Ok(());
        }
    }
    Err(SolveError::Internal)
}

/// Takes a schedule that a solver produced for `p` and hands it back exactly
/// when `p` is well formed and some placement of its tokens makes the schedule
/// valid; every placement is searched.
pub fn accept_solution(p: &Problem, s: SolutionPy) -> (r: Result<SolutionPy, SolveError>)
    ensures
        r is Ok <==> well_formed(p@) && schedule_valid(p@, s@),
        r is Ok ==> r->Ok_0@ == s@,
        !well_formed(p@) ==> r is Err && r->Err_0 is MalformedProblem,
        well_formed(p@) && !schedule_valid(p@, s@) ==> r is Err && r->Err_0 is Internal,
{
    match crate::validate::validate(p) {
        Err(e) => Err(e),
        Ok(()) => match search(p, &s, Vec::new()) {
            None => {
                assert forall|m: Seq<usize>| !#[trigger] schedule_valid_with(p@, s@, m) by {
                    if schedule_valid_with(p@, s@, m) {
                        assert(m.subrange(0, 0) =~= Seq::<usize>::empty());
                    }
                }
                Err(SolveError::Internal)
            },
            Some(m) => {
                assert(schedule_valid_with(p@, s@, m@));
                Ok(s)
            },
        },
    }
}

/// What every valid schedule satisfies, each property stated on its own:
/// each token lasts as long as its value admits; each problem token has a
/// solution token of its own, which keeps a fact's fixed bounds; each value
/// condition is met by another token through the stated relation; at every
/// instant the active tokens of a value consume no more than its capacity,
/// a token placing a problem token consuming that token's capacity and a
/// support the least amount a condition asks of its value; and the
/// target of a transition condition ends exactly where its source starts,
/// with no token of its timeline starting in between; and no timeline has a
/// gap.
pub proof fn lemma_schedule_laws(p: ProblemView, s: Seq<SolutionTokenView>, m: Seq<usize>)
    requires
        well_formed(p),
        schedule_valid_with(p, s, m),
    ensures
        contiguous(s),
        forall|j: int, i: int, k: int|
            0 <= j < s.len() && #[trigger] located(p, s[j], i, k) ==> s[j].start <= s[j].end
                && duration_admits(p.timelines[i].values[k].duration, s[j].end - s[j].start),
        m.len() == p.tokens.len(),
        forall|t: int|
            0 <= t < p.tokens.len() ==> 0 <= #[trigger] m[t] < s.len() && s[m[t] as int].object
                == p.tokens[t].timeline_name && s[m[t] as int].value == p.tokens[t].value,
        forall|t1: int, t2: int|
            0 <= t1 < p.tokens.len() && 0 <= t2 < p.tokens.len() && t1 != t2 ==> #[trigger] m[t1]
                != #[trigger] m[t2],
        forall|t: int|
            0 <= t < p.tokens.len() && (#[trigger] p.tokens[t]).time is Fact ==> bound_met(
                p.tokens[t].time->Fact_0,
                s[m[t] as int].start,
            ) && bound_met(p.tokens[t].time->Fact_1, s[m[t] as int].end),
        forall|t: int|
            0 <= t < p.tokens.len() ==> weights(p, s, m, p.tokens.len())[#[trigger] m[t] as int]
                == p.tokens[t].capacity as nat,
        forall|j: int|
            0 <= j < s.len() && !m.contains(j as usize) ==> #[trigger] weights(
                p,
                s,
                m,
                p.tokens.len(),
            )[j] == support_amount(p, s[j].value),
        forall|j: int, i: int, k: int, c: int|
            0 <= j < s.len() && #[trigger] located(p, s[j], i, k) && 0 <= c
                < p.timelines[i].values[k].conditions.len() ==> exists|b: int|
                0 <= b < s.len() && b != j && relation_holds(
                    (#[trigger] p.timelines[i].values[k].conditions[c]).relation,
                    s,
                    j,
                    b,
                ),
        forall|j: int, i: int, k: int, t: int|
            0 <= j < s.len() && #[trigger] located(p, s[j], i, k) ==> #[trigger] count_active(
                s,
                weights(p, s, m, p.tokens.len()),
                s.len(),
                s[j].object,
                s[j].value,
                t,
            ) <= p.timelines[i].values[k].capacity,
        forall|j: int, i: int, k: int, c: int|
            0 <= j < s.len() && #[trigger] located(p, s[j], i, k) && 0 <= c
                < p.timelines[i].values[k].conditions.len()
                && (#[trigger] p.timelines[i].values[k].conditions[c]).relation
                == TemporalRelationship::MetByTransitionFrom ==> exists|b: int|
                0 <= b < s.len() && b != j && s[b].end == s[j].start && forall|d: int|
                    0 <= d < s.len() && d != j && d != b && (#[trigger] s[d]).object == s[b].object
                        ==> !(s[b].end <= s[d].start && s[d].start <= s[j].start),
{
    assert forall|j: int, i: int, k: int|
        0 <= j < s.len() && #[trigger] located(p, s[j], i, k) implies s[j].start <= s[j].end
        && duration_admits(p.timelines[i].values[k].duration, s[j].end - s[j].start) by {
        assert(duration_fits(p, s[j]));
        let (i2, k2) = choose|i2: int, k2: int|
            located(p, s[j], i2, k2) && duration_admits(
                p.timelines[i2].values[k2].duration,
                s[j].end - s[j].start,
            );
        lemma_located_unique(p, s[j], i, k, i2, k2);
    }
    assert forall|t: int| 0 <= t < p.tokens.len() implies 0 <= #[trigger] m[t] < s.len()
        && s[m[t] as int].object == p.tokens[t].timeline_name && s[m[t] as int].value
        == p.tokens[t].value by {
        assert(fits(p, s, m[t] as int, p.tokens[t]));
    }
    assert forall|t: int|
        0 <= t < p.tokens.len() && (#[trigger] p.tokens[t]).time is Fact implies bound_met(
        p.tokens[t].time->Fact_0,
        s[m[t] as int].start,
    ) && bound_met(p.tokens[t].time->Fact_1, s[m[t] as int].end) by {
        assert(fits(p, s, m[t] as int, p.tokens[t]));
    }
    assert forall|t: int| 0 <= t < p.tokens.len() implies weights(
        p,
        s,
        m,
        p.tokens.len(),
    )[#[trigger] m[t] as int] == p.tokens[t].capacity as nat by {
        assert(fits(p, s, m[t] as int, p.tokens[t]));
        lemma_weights_placed(p, s, m, p.tokens.len(), t);
    }
    assert forall|j: int| 0 <= j < s.len() && !m.contains(j as usize) implies #[trigger] weights(
        p,
        s,
        m,
        p.tokens.len(),
    )[j] == support_amount(p, s[j].value) by {
        assert forall|t: int| 0 <= t < p.tokens.len() implies m[t] != j by {
            if m[t] == j {
                assert(m.contains(j as usize));
            }
        }
        lemma_weights_support(p, s, m, p.tokens.len(), j);
    }
    assert forall|j: int, i: int, k: int, c: int|
        0 <= j < s.len() && #[trigger] located(p, s[j], i, k) && 0 <= c
            < p.timelines[i].values[k].conditions.len() implies exists|b: int|
        0 <= b < s.len() && b != j && relation_holds(
            (#[trigger] p.timelines[i].values[k].conditions[c]).relation,
            s,
            j,
            b,
        ) by {
        assert(condition_met(p, s, j, p.timelines[i].values[k].conditions[c]));
    }
    assert forall|j: int, i: int, k: int, c: int|
        0 <= j < s.len() && #[trigger] located(p, s[j], i, k) && 0 <= c
            < p.timelines[i].values[k].conditions.len()
            && (#[trigger] p.timelines[i].values[k].conditions[c]).relation
            == TemporalRelationship::MetByTransitionFrom implies exists|b: int|
        0 <= b < s.len() && b != j && s[b].end == s[j].start && forall|d: int|
            0 <= d < s.len() && d != j && d != b && (#[trigger] s[d]).object == s[b].object ==> !(
            s[b].end <= s[d].start && s[d].start <= s[j].start) by {
        let cond = p.timelines[i].values[k].conditions[c];
        assert(condition_met(p, s, j, cond));
        let b = choose|b: int|
            0 <= b < s.len() && b != j && s[b].value == cond.value && in_target(
                p,
                cond.object,
                s[b].object,
            ) && relation_holds(cond.relation, s, j, b);
        assert(nothing_between(s, j, b));
    }
}

/// A fact whose fixed bounds span a length that its value does not admit is
/// met by no schedule at all: such a problem is infeasible.
pub proof fn lemma_fact_outside_duration_infeasible(
    p: ProblemView,
    s: Seq<SolutionTokenView>,
    t: int,
    a: usize,
    b: usize,
)
    requires
        0 <= t < p.tokens.len(),
        p.tokens[t].time == TokenTime::Fact(Bound::Fixed(a), Bound::Fixed(b)),
        forall|i: int, k: int|
            0 <= i < p.timelines.len() && 0 <= k < p.timelines[i].values.len()
                && p.timelines[i].name == p.tokens[t].timeline_name
                && p.timelines[i].values[k].name == p.tokens[t].value ==> !duration_admits(
                #[trigger] p.timelines[i].values[k].duration,
                b - a,
            ),
    ensures
        !schedule_valid(p, s),
{
    if schedule_valid(p, s) {
        let m = choose|m: Seq<usize>| schedule_valid_with(p, s, m);
        let j = m[t] as int;
        assert(fits(p, s, j, p.tokens[t]));
        assert(duration_fits(p, s[j]));
        let (i, k) = choose|i: int, k: int|
            located(p, s[j], i, k) && duration_admits(
                p.timelines[i].values[k].duration,
                s[j].end - s[j].start,
            );
        assert(!duration_admits(p.timelines[i].values[k].duration, b - a));
    }
}

// ---------------------------------------------------------------------------
// Group resolution
// ---------------------------------------------------------------------------

fn collect_timelines(p: &Problem, name: &String, fuel: usize, out: &mut Vec<String>)
    requires
        well_formed(p@),
    ensures
        forall|obj: Seq<char>|
            #[trigger] crate::model::strings_view(*final(out)).contains(obj) <==> (
            crate::model::strings_view(*old(out)).contains(obj) || resolves_to(
                p@,
                name@,
                obj,
                fuel as nat,
            )),
    decreases fuel,
{
    let ghost start = crate::model::strings_view(*out);
    if find_timeline(p, name).is_some() {
        assert(forall|g: int| 0 <= g < p@.groups.len() ==> p@.groups[g].name != name@) by {
            assert forall|g: int| 0 <= g < p@.groups.len() implies p@.groups[g].name != name@ by {
                assert(!is_timeline(p@, p@.groups[g].name));
            }
        }
        out.push(name.clone());
        assert(crate::model::strings_view(*out) =~= start.push(name@));
        assert(is_timeline(p@, name@));
        assert forall|obj: Seq<char>|
            #[trigger] crate::model::strings_view(*out).contains(obj) <==> (start.contains(obj)
                || resolves_to(p@, name@, obj, fuel as nat)) by {
            let now = crate::model::strings_view(*out);
            if obj == name@ {
                assert(now[start.len() as int] == obj);
            }
            if now.contains(obj) {
                let d = choose|d: int| 0 <= d < now.len() && now[d] == obj;
                if d < start.len() {
                    assert(start[d] == obj);
                }
            }
            if start.contains(obj) {
                let d = choose|d: int| 0 <= d < start.len() && start[d] == obj;
                assert(now[d] == obj);
            }
        }
        return;
    }
    if fuel == 0 {
        return;
    }
    match find_group(p, name) {
        None => {},
        Some(g) => {
            let group = &p.groups[g];
            assert(group@ == p@.groups[g as int]);
            assert(forall|h: int| 0 <= h < p@.groups.len() && p@.groups[h].name == name@ ==> h == g);
            let mut m: usize = 0;
            while m < group.members.len()
                invariant
                    0 < fuel,
                    well_formed(p@),
                    !is_timeline(p@, name@),
                    g < p@.groups.len(),
                    group@ == p@.groups[g as int],
                    p@.groups[g as int].name == name@,
                    m <= group.members.len(),
                    forall|obj: Seq<char>|
                        #[trigger] crate::model::strings_view(*out).contains(obj) <==> (
                        start.contains(obj) || exists|d: int|
                            0 <= d < m && resolves_to(
                                p@,
                                #[trigger] p@.groups[g as int].members[d],
                                obj,
                                (fuel - 1) as nat,
                            )),
                decreases group.members.len() - m,
            {
                assert(group.members@[m as int]@ == p@.groups[g as int].members[m as int]);
                collect_timelines(p, &group.members[m], fuel - 1, out);
                m += 1;
            }
        },
    }
}

/// The concrete timelines that a timeline or group name stands for: the name
/// itself for a timeline, the timelines reached through membership for a
/// group, nothing for an unknown name.
pub fn resolve_target(p: &Problem, name: &String) -> (r: Vec<String>)
    requires
        well_formed(p@),
    ensures
        forall|obj: Seq<char>|
            #[trigger] crate::model::strings_view(r).contains(obj) <==> resolves_to(
                p@,
                name@,
                obj,
                p@.groups.len(),
            ),
{
    let mut r: Vec<String> = Vec::new();
    assert(crate::model::strings_view(r) =~= Seq::<Seq<char>>::empty());
    collect_timelines(p, name, p.groups.len(), &mut r);
    r
}

} // verus!
