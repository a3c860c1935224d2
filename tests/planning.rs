use pyparaspace::{
    accept_solution, check_solution, fact, goal, resolve_target, make_problem, problem_from_py, problem_to_py, validate, Bound,
    ConditionPy, GroupPy, Problem, ProblemPy, SolutionPy, SolutionTokenPy, SolveError,
    TemporalRelationshipPy, TimelinePy, TokenPy, TokenTime, TokenTimePy, ValuePy,
};

fn s(x: &str) -> String {
    x.to_string()
}

fn cond(rel: TemporalRelationshipPy, object: &[&str], value: &str) -> ConditionPy {
    ConditionPy {
        temporal_relationship: rel,
        object: object.iter().map(|o| s(o)).collect(),
        value: s(value),
        amount: 1,
    }
}

fn value(name: &str, min: usize, max: Option<usize>, cap: u32, conditions: Vec<ConditionPy>) -> ValuePy {
    ValuePy { name: s(name), duration: (min, max), conditions, capacity: cap }
}

fn timeline(name: &str, values: Vec<ValuePy>) -> TimelinePy {
    TimelinePy { name: s(name), values }
}

fn token(tl: &str, v: &str, time: TokenTimePy) -> TokenPy {
    TokenPy { timeline_name: s(tl), value: s(v), capacity: 1, const_time: time, conditions: vec![] }
}

fn group(name: &str, members: &[&str]) -> GroupPy {
    GroupPy { name: s(name), members: members.iter().map(|m| s(m)).collect() }
}

fn placed(obj: &str, v: &str, start: i64, end: i64) -> SolutionTokenPy {
    SolutionTokenPy { object_name: s(obj), value: s(v), start_time: start, end_time: end }
}

fn to_core(p: &ProblemPy) -> Problem {
    problem_from_py(p)
}

fn accepted(p: &ProblemPy, tokens: Vec<SolutionTokenPy>) -> bool {
    accept_solution(&to_core(p), SolutionPy { tokens }).is_ok()
}

fn malformed_name(p: &ProblemPy) -> String {
    match validate(&to_core(p)) {
        Err(SolveError::MalformedProblem(name)) => name,
        other => panic!("expected a malformed problem, got {:?}", other),
    }
}

fn single_goal() -> ProblemPy {
    ProblemPy {
        timelines: vec![timeline("T", vec![value("v", 1, Some(1), 1, vec![])])],
        groups: vec![],
        tokens: vec![token("T", "v", goal())],
    }
}

fn meets_chain() -> ProblemPy {
    ProblemPy {
        timelines: vec![timeline(
            "T",
            vec![
                value("a", 2, Some(2), 1, vec![]),
                value("b", 3, Some(3), 1, vec![cond(TemporalRelationshipPy::MetBy, &["T"], "a")]),
            ],
        )],
        groups: vec![],
        tokens: vec![token("T", "b", fact(None, Some(10)))],
    }
}

fn group_selection() -> ProblemPy {
    ProblemPy {
        timelines: vec![
            timeline("T1", vec![value("u", 5, Some(5), 1, vec![])]),
            timeline("T2", vec![value("u", 5, Some(5), 1, vec![])]),
            timeline(
                "X",
                vec![value("v", 2, Some(2), 1, vec![cond(TemporalRelationshipPy::Cover, &["G"], "u")])],
            ),
        ],
        groups: vec![group("G", &["T1", "T2"])],
        tokens: vec![token("X", "v", fact(Some(1), Some(3)))],
    }
}

fn transition() -> ProblemPy {
    ProblemPy {
        timelines: vec![timeline(
            "T",
            vec![
                value("a", 1, Some(1), 1, vec![]),
                value("b", 1, Some(1), 1, vec![]),
                value(
                    "c",
                    1,
                    Some(1),
                    1,
                    vec![cond(TemporalRelationshipPy::MetByTransitionFrom, &["T"], "a")],
                ),
            ],
        )],
        groups: vec![],
        tokens: vec![token("T", "a", goal()), token("T", "b", goal()), token("T", "c", goal())],
    }
}

fn capacity(cap: u32) -> ProblemPy {
    ProblemPy {
        timelines: vec![timeline("T", vec![value("v", 1, Some(1), cap, vec![])])],
        groups: vec![],
        tokens: vec![token("T", "v", goal()), token("T", "v", goal())],
    }
}

#[test]
fn goal_and_fact_shapes() {
    assert_eq!(goal(), None);
    assert_eq!(fact(Some(1), None), Some((Some(1), None)));
    assert_eq!(fact(None, None), Some((None, None)));
}

#[test]
fn token_time_becomes_sum_type() {
    let p = ProblemPy {
        timelines: vec![timeline("T", vec![value("v", 0, None, 1, vec![])])],
        groups: vec![],
        tokens: vec![token("T", "v", goal()), token("T", "v", fact(Some(4), None))],
    };
    let c = problem_from_py(&p);
    assert_eq!(c.tokens[0].const_time, TokenTime::Goal);
    assert_eq!(c.tokens[1].const_time, TokenTime::Fact(Bound::Fixed(4), Bound::Unbounded));
}

#[test]
fn round_trip_keeps_problem() {
    let p = group_selection();
    let q = problem_to_py(&problem_from_py(&p));
    assert_eq!(q.timelines.len(), 3);
    for (a, b) in p.timelines.iter().zip(q.timelines.iter()) {
        assert_eq!(a.name, b.name);
        assert_eq!(a.values.len(), b.values.len());
        for (x, y) in a.values.iter().zip(b.values.iter()) {
            assert_eq!(x.name, y.name);
            assert_eq!(x.duration, y.duration);
            assert_eq!(x.capacity, y.capacity);
            assert_eq!(x.conditions.len(), y.conditions.len());
            for (c, d) in x.conditions.iter().zip(y.conditions.iter()) {
                assert_eq!(c.temporal_relationship, d.temporal_relationship);
                assert_eq!(c.object, d.object);
                assert_eq!(c.value, d.value);
                assert_eq!(c.amount, d.amount);
            }
        }
    }
    assert_eq!(q.groups[0].name, "G");
    assert_eq!(q.groups[0].members, vec![s("T1"), s("T2")]);
    assert_eq!(q.tokens[0].const_time, Some((Some(1), Some(3))));
    assert_eq!(q.tokens[0].timeline_name, "X");
}

#[test]
fn well_formed_problems_validate() {
    assert!(validate(&to_core(&single_goal())).is_ok());
    assert!(validate(&to_core(&meets_chain())).is_ok());
    assert!(validate(&to_core(&group_selection())).is_ok());
    assert!(validate(&to_core(&transition())).is_ok());
}

#[test]
fn make_problem_keeps_parts() {
    let c = to_core(&single_goal());
    let p = make_problem(c.timelines, c.groups, c.tokens).unwrap();
    assert_eq!(p.timelines[0].name, "T");
    assert_eq!(p.tokens.len(), 1);
}

#[test]
fn duplicate_timeline_is_malformed() {
    let mut p = single_goal();
    p.timelines.push(timeline("T", vec![]));
    assert_eq!(malformed_name(&p), "T");
}

#[test]
fn duplicate_value_is_malformed() {
    let mut p = single_goal();
    p.timelines[0].values.push(value("v", 0, None, 1, vec![]));
    assert_eq!(malformed_name(&p), "v");
}

#[test]
fn inverted_duration_is_malformed() {
    let mut p = single_goal();
    p.timelines[0].values[0].duration = (3, Some(2));
    assert_eq!(malformed_name(&p), "v");
}

#[test]
fn zero_capacity_is_malformed() {
    let mut p = single_goal();
    p.timelines[0].values[0].capacity = 0;
    assert_eq!(malformed_name(&p), "v");
}

#[test]
fn unknown_token_timeline_is_malformed() {
    let mut p = single_goal();
    p.tokens.push(token("U", "v", goal()));
    assert_eq!(malformed_name(&p), "U");
}

#[test]
fn unknown_token_value_is_malformed() {
    let mut p = single_goal();
    p.tokens.push(token("T", "w", goal()));
    assert_eq!(malformed_name(&p), "w");
}

#[test]
fn dangling_condition_is_malformed() {
    let mut p = meets_chain();
    p.timelines[0].values[1].conditions[0].object = vec![s("Nowhere")];
    assert_eq!(malformed_name(&p), "Nowhere");
}

#[test]
fn group_member_missing_value_is_malformed() {
    let mut p = group_selection();
    p.timelines[1].values[0].name = s("w");
    assert_eq!(malformed_name(&p), "G");
}

#[test]
fn cyclic_groups_are_malformed() {
    let mut p = group_selection();
    p.groups = vec![group("G", &["T1", "H"]), group("H", &["G"])];
    let name = malformed_name(&p);
    assert!(name == "G" || name == "H");
}

#[test]
fn group_named_like_timeline_is_malformed() {
    let mut p = group_selection();
    p.groups.push(group("T1", &["T2"]));
    assert_eq!(malformed_name(&p), "T1");
}

#[test]
fn unknown_group_member_is_malformed() {
    let mut p = group_selection();
    p.groups[0].members.push(s("T9"));
    assert_eq!(malformed_name(&p), "T9");
}

#[test]
fn zero_amount_is_malformed() {
    let mut p = meets_chain();
    p.timelines[0].values[1].conditions[0].amount = 0;
    assert_eq!(malformed_name(&p), "a");
}

#[test]
fn single_goal_schedule() {
    let p = single_goal();
    assert!(accepted(&p, vec![placed("T", "v", 0, 1)]));
    assert!(!accepted(&p, vec![placed("T", "v", 0, 2)]));
    assert!(!accepted(&p, vec![]));
}

#[test]
fn unknown_solution_token_is_rejected() {
    let p = single_goal();
    let r = accept_solution(&to_core(&p), SolutionPy { tokens: vec![placed("T", "v", 0, 1), placed("Q", "v", 0, 1)] });
    assert!(matches!(r, Err(SolveError::Internal)));
}

#[test]
fn meets_chain_schedule() {
    let p = meets_chain();
    assert!(accepted(&p, vec![placed("T", "a", 5, 7), placed("T", "b", 7, 10)]));
    // The supporting token must end where b starts.
    assert!(!accepted(&p, vec![placed("T", "a", 4, 6), placed("T", "b", 7, 10)]));
    // The fixed end bound is kept.
    assert!(!accepted(&p, vec![placed("T", "a", 4, 6), placed("T", "b", 6, 9)]));
}

#[test]
fn group_selection_schedule() {
    let p = group_selection();
    let sol = vec![placed("T1", "u", 0, 5), placed("X", "v", 1, 3)];
    let r = accept_solution(&to_core(&p), SolutionPy { tokens: sol }).unwrap();
    assert_eq!(r.tokens.len(), 2);
    assert_eq!(r.tokens[0].object_name, "T1");
    assert!(accepted(&p, vec![placed("T2", "u", -1, 4), placed("X", "v", 1, 3)]));
    // The cover must start no later than 1 and end no earlier than 3.
    assert!(!accepted(&p, vec![placed("T1", "u", 2, 7), placed("X", "v", 1, 3)]));
}

#[test]
fn fact_outside_duration_is_refused() {
    let p = ProblemPy {
        timelines: vec![timeline("T", vec![value("v", 2, Some(2), 1, vec![])])],
        groups: vec![],
        tokens: vec![token("T", "v", fact(Some(0), Some(5)))],
    };
    assert!(validate(&to_core(&p)).is_err());
    assert!(!accepted(&p, vec![placed("T", "v", 0, 5)]));
    assert!(!accepted(&p, vec![placed("T", "v", 0, 2)]));
}

#[test]
fn transition_requires_adjacency() {
    let p = transition();
    assert!(!accepted(&p, vec![placed("T", "a", 0, 1), placed("T", "b", 1, 2), placed("T", "c", 2, 3)]));
    assert!(accepted(&p, vec![placed("T", "a", 0, 1), placed("T", "c", 1, 2), placed("T", "b", 2, 3)]));
}

#[test]
fn capacity_sharing_schedule() {
    assert!(accepted(&capacity(2), vec![placed("T", "v", 0, 1), placed("T", "v", 0, 1)]));
    assert!(!accepted(&capacity(1), vec![placed("T", "v", 0, 1), placed("T", "v", 0, 1)]));
    assert!(accepted(&capacity(1), vec![placed("T", "v", 0, 1), placed("T", "v", 1, 2)]));
}

#[test]
fn different_values_do_not_overlap() {
    let p = ProblemPy {
        timelines: vec![timeline(
            "T",
            vec![value("a", 2, Some(2), 1, vec![]), value("b", 2, Some(2), 1, vec![])],
        )],
        groups: vec![],
        tokens: vec![token("T", "a", goal()), token("T", "b", goal())],
    };
    assert!(!accepted(&p, vec![placed("T", "a", 0, 2), placed("T", "b", 1, 3)]));
    assert!(accepted(&p, vec![placed("T", "a", 0, 2), placed("T", "b", 2, 4)]));
}

#[test]
fn other_relations() {
    let rels = [
        (TemporalRelationshipPy::Meets, (0, 2), (2, 4), (3, 5)),
        (TemporalRelationshipPy::Equal, (0, 2), (0, 2), (1, 3)),
        (TemporalRelationshipPy::StartsAfter, (1, 3), (0, 2), (1, 3)),
    ];
    for (rel, a, good, bad) in rels {
        let p = ProblemPy {
            timelines: vec![
                timeline("A", vec![value("x", 2, Some(2), 1, vec![cond(rel, &["B"], "y")])]),
                timeline("B", vec![value("y", 2, Some(2), 1, vec![])]),
            ],
            groups: vec![],
            tokens: vec![token("A", "x", goal())],
        };
        assert!(accepted(&p, vec![placed("A", "x", a.0, a.1), placed("B", "y", good.0, good.1)]));
        assert!(!accepted(&p, vec![placed("A", "x", a.0, a.1), placed("B", "y", bad.0, bad.1)]));
    }
}

#[test]
fn accept_rejects_malformed_problem() {
    let mut p = single_goal();
    p.timelines.push(timeline("T", vec![]));
    let r = accept_solution(&to_core(&p), SolutionPy { tokens: vec![placed("T", "v", 0, 1)] });
    assert!(matches!(r, Err(SolveError::MalformedProblem(_))));
}

#[test]
fn token_conditions_must_hold() {
    let mut tk = token("T", "v", goal());
    tk.conditions.push(cond(TemporalRelationshipPy::MetBy, &["T"], "w"));
    let p = ProblemPy {
        timelines: vec![timeline(
            "T",
            vec![value("v", 1, Some(1), 1, vec![]), value("w", 1, Some(1), 1, vec![])],
        )],
        groups: vec![],
        tokens: vec![tk],
    };
    assert!(!accepted(&p, vec![placed("T", "v", 1, 2)]));
    assert!(!accepted(&p, vec![placed("T", "w", 2, 3), placed("T", "v", 1, 2)]));
    assert!(accepted(&p, vec![placed("T", "w", 0, 1), placed("T", "v", 1, 2)]));
}

#[test]
fn groups_resolve_to_timelines() {
    let mut p = group_selection();
    p.groups = vec![group("G", &["T1", "H"]), group("H", &["T2"])];
    let c = to_core(&p);
    assert!(validate(&c).is_ok());
    let mut all = resolve_target(&c, &s("G"));
    all.sort();
    assert_eq!(all, vec![s("T1"), s("T2")]);
    assert_eq!(resolve_target(&c, &s("H")), vec![s("T2")]);
    assert_eq!(resolve_target(&c, &s("X")), vec![s("X")]);
    assert!(resolve_target(&c, &s("Q")).is_empty());
    // A condition on the nested group is met through its inner member.
    assert!(accepted(&p, vec![placed("T2", "u", 0, 5), placed("X", "v", 1, 3)]));
}

#[test]
fn each_token_needs_its_own_placement() {
    // Two goal tokens on a value of capacity 2: one solution token is not enough.
    assert!(!accepted(&capacity(2), vec![placed("T", "v", 0, 1)]));
    assert!(accepted(&capacity(2), vec![placed("T", "v", 0, 1), placed("T", "v", 0, 1)]));
}

#[test]
fn capacity_counts_token_amounts() {
    let mut p = single_goal();
    p.tokens[0].capacity = 2;
    assert!(!accepted(&p, vec![placed("T", "v", 0, 1)]));
    p.timelines[0].values[0].capacity = 2;
    assert!(accepted(&p, vec![placed("T", "v", 0, 1)]));
}

#[test]
fn explicit_placement_is_checked() {
    let c = to_core(&capacity(2));
    let sol = SolutionPy { tokens: vec![placed("T", "v", 0, 1), placed("T", "v", 0, 1)] };
    assert!(check_solution(&c, &sol, &vec![0, 1]).is_ok());
    assert!(matches!(check_solution(&c, &sol, &vec![0, 0]), Err(SolveError::Internal)));
    assert!(check_solution(&c, &sol, &vec![0]).is_err());
    assert!(check_solution(&c, &sol, &vec![0, 2]).is_err());
}

#[test]
fn transition_target_must_be_followed_directly() {
    let p = ProblemPy {
        timelines: vec![
            timeline("T", vec![value("a", 1, Some(1), 1, vec![]), value("b", 1, Some(1), 1, vec![])]),
            timeline(
                "X",
                vec![value(
                    "c",
                    1,
                    Some(1),
                    1,
                    vec![cond(TemporalRelationshipPy::MetByTransitionFrom, &["T"], "a")],
                )],
            ),
        ],
        groups: vec![],
        tokens: vec![token("X", "c", goal())],
    };
    // a ends where c starts, but b follows a on T before c starts.
    assert!(!accepted(&p, vec![placed("T", "a", 0, 1), placed("T", "b", 1, 2), placed("X", "c", 1, 2)]));
    assert!(accepted(&p, vec![placed("T", "a", 0, 1), placed("X", "c", 1, 2)]));
}

#[test]
fn supports_consume_their_condition_amount() {
    let mut p = meets_chain();
    p.timelines[0].values[1].conditions[0].amount = 2;
    let sol = vec![placed("T", "a", 5, 7), placed("T", "b", 7, 10)];
    assert!(!accepted(&p, sol.clone()));
    p.timelines[0].values[0].capacity = 2;
    assert!(accepted(&p, sol));
}

#[test]
fn timelines_have_no_gaps() {
    assert!(!accepted(&capacity(1), vec![placed("T", "v", 0, 1), placed("T", "v", 2, 3)]));
    assert!(accepted(&capacity(1), vec![placed("T", "v", 2, 3), placed("T", "v", 1, 2)]));
}

#[test]
fn placement_search_backtracks() {
    let p = ProblemPy {
        timelines: vec![timeline("T", vec![value("v", 1, Some(1), 1, vec![])])],
        groups: vec![],
        tokens: vec![token("T", "v", goal()), token("T", "v", fact(Some(0), Some(1)))],
    };
    assert!(accepted(&p, vec![placed("T", "v", 0, 1), placed("T", "v", 1, 2)]));
    assert!(!accepted(&p, vec![placed("T", "v", 1, 2), placed("T", "v", 2, 3)]));
}

#[test]
fn support_charged_least_asking_amount() {
    let mut p = meets_chain();
    p.timelines[0].values[1].conditions[0].amount = 2;
    // A second condition asks for `a` with amount 1: the support may be its.
    let mut extra = token("T", "b", goal());
    extra.conditions.push(cond(TemporalRelationshipPy::MetBy, &["T"], "a"));
    p.tokens.push(extra);
    p.timelines[0].values[1].capacity = 2;
    let sol = vec![placed("T", "a", 5, 7), placed("T", "b", 7, 10), placed("T", "b", 7, 10)];
    assert!(accepted(&p, sol));
}
