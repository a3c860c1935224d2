use vstd::prelude::*;

verus! {

// ---------------------------------------------------------------------------
// Mathematical views shared by the binding surface and the core model
// ---------------------------------------------------------------------------

/// How a token's interval relates to the interval of the token a condition
/// points at (A is the token carrying the condition, B the target).
#[derive(Clone, Copy, Debug, PartialEq, Eq, Structural)]
pub enum TemporalRelationship {
    /// B.end = A.start.
    MetBy,
    /// B.end = A.start, and B directly precedes A on B's timeline.
    MetByTransitionFrom,
    /// A.end = B.start.
    Meets,
    /// B.start <= A.start and A.end <= B.end.
    Cover,
    /// A.start = B.start and A.end = B.end.
    Equal,
    /// A.start > B.start.
    StartsAfter,
}

/// One endpoint of a fact: a fixed instant, or left to the solver.
#[derive(Clone, Copy, Debug, PartialEq, Eq, Structural)]
pub enum Bound {
    Fixed(usize),
    Unbounded,
}

/// When a token occurs: a goal is placed freely, a fact pins its bounds.
#[derive(Clone, Copy, Debug, PartialEq, Eq, Structural)]
pub enum TokenTime {
    Goal,
    Fact(Bound, Bound),
}

pub struct ConditionView {
    pub relation: TemporalRelationship,
    pub object: Seq<Seq<char>>,
    pub value: Seq<char>,
    pub amount: u32,
}

pub struct ValueView {
    pub name: Seq<char>,
    pub duration: (usize, Option<usize>),
    pub conditions: Seq<ConditionView>,
    pub capacity: u32,
}

pub struct TimelineView {
    pub name: Seq<char>,
    pub values: Seq<ValueView>,
}

pub struct GroupView {
    pub name: Seq<char>,
    pub members: Seq<Seq<char>>,
}

pub struct TokenView {
    pub timeline_name: Seq<char>,
    pub value: Seq<char>,
    pub capacity: u32,
    pub time: TokenTime,
    pub conditions: Seq<ConditionView>,
}

pub struct ProblemView {
    pub timelines: Seq<TimelineView>,
    pub groups: Seq<GroupView>,
    pub tokens: Seq<TokenView>,
}

pub struct SolutionTokenView {
    pub object: Seq<char>,
    pub value: Seq<char>,
    pub start: int,
    pub end: int,
}

pub open spec fn strings_view(v: Vec<String>) -> Seq<Seq<char>> {
    v@.map_values(|s: String| s@)
}

// ---------------------------------------------------------------------------
// Binding surface: the shapes handed across to a scripting host
// ---------------------------------------------------------------------------

/// The optional-of-pair form of a token time: `None` is a goal, `Some((a, b))`
/// a fact whose absent sides are unbounded.
pub type TokenTimePy = Option<(Option<usize>, Option<usize>)>;

pub open spec fn bound_of(b: Option<usize>) -> Bound {
    match b {
        Some(n) => Bound::Fixed(n),
        None => Bound::Unbounded,
    }
}

pub open spec fn time_from_py(t: TokenTimePy) -> TokenTime {
    match t {
        None => TokenTime::Goal,
        Some((a, b)) => TokenTime::Fact(bound_of(a), bound_of(b)),
    }
}

pub open spec fn option_of(b: Bound) -> Option<usize> {
    match b {
        Bound::Fixed(n) => Some(n),
        Bound::Unbounded => None,
    }
}

pub open spec fn time_to_py(t: TokenTime) -> TokenTimePy {
    match t {
        TokenTime::Goal => None,
        TokenTime::Fact(a, b) => Some((option_of(a), option_of(b))),
    }
}

#[derive(Clone, Copy, Debug, PartialEq, Eq, Structural)]
pub enum TemporalRelationshipPy {
    MetBy,
    MetByTransitionFrom,
    Meets,
    Cover,
    Equal,
    StartsAfter,
}

impl View for TemporalRelationshipPy {
    type V = TemporalRelationship;

    open spec fn view(&self) -> TemporalRelationship {
        match self {
            TemporalRelationshipPy::MetBy => TemporalRelationship::MetBy,
            TemporalRelationshipPy::MetByTransitionFrom => TemporalRelationship::MetByTransitionFrom,
            TemporalRelationshipPy::Meets => TemporalRelationship::Meets,
            TemporalRelationshipPy::Cover => TemporalRelationship::Cover,
            TemporalRelationshipPy::Equal => TemporalRelationship::Equal,
            TemporalRelationshipPy::StartsAfter => TemporalRelationship::StartsAfter,
        }
    }
}

#[derive(Clone, Debug)]
pub struct ConditionPy {
    pub temporal_relationship: TemporalRelationshipPy,
    pub object: Vec<String>,
    pub value: String,
    pub amount: u32,
}

impl View for ConditionPy {
    type V = ConditionView;

    open spec fn view(&self) -> ConditionView {
        ConditionView {
            relation: self.temporal_relationship@,
            object: strings_view(self.object),
            value: self.value@,
            amount: self.amount,
        }
    }
}

pub open spec fn conditions_py_view(v: Vec<ConditionPy>) -> Seq<ConditionView> {
    v@.map_values(|c: ConditionPy| c@)
}

#[derive(Debug)]
pub struct ValuePy {
    pub name: String,
    pub duration: (usize, Option<usize>),
    pub conditions: Vec<ConditionPy>,
    pub capacity: u32,
}

impl View for ValuePy {
    type V = ValueView;

    open spec fn view(&self) -> ValueView {
        ValueView {
            name: self.name@,
            duration: self.duration,
            conditions: conditions_py_view(self.conditions),
            capacity: self.capacity,
        }
    }
}

#[derive(Debug)]
pub struct TimelinePy {
    pub name: String,
    pub values: Vec<ValuePy>,
}

impl View for TimelinePy {
    type V = TimelineView;

    open spec fn view(&self) -> TimelineView {
        TimelineView { name: self.name@, values: self.values@.map_values(|v: ValuePy| v@) }
    }
}

#[derive(Clone, Debug)]
pub struct GroupPy {
    pub name: String,
    pub members: Vec<String>,
}

impl View for GroupPy {
    type V = GroupView;

    open spec fn view(&self) -> GroupView {
        GroupView { name: self.name@, members: strings_view(self.members) }
    }
}

#[derive(Debug)]
pub struct TokenPy {
    pub timeline_name: String,
    pub value: String,
    pub capacity: u32,
    pub const_time: TokenTimePy,
    pub conditions: Vec<ConditionPy>,
}

impl View for TokenPy {
    type V = TokenView;

    open spec fn view(&self) -> TokenView {
        TokenView {
            timeline_name: self.timeline_name@,
            value: self.value@,
            capacity: self.capacity,
            time: time_from_py(self.const_time),
            conditions: conditions_py_view(self.conditions),
        }
    }
}

#[derive(Debug)]
pub struct ProblemPy {
    pub timelines: Vec<TimelinePy>,
    pub groups: Vec<GroupPy>,
    pub tokens: Vec<TokenPy>,
}

impl View for ProblemPy {
    type V = ProblemView;

    open spec fn view(&self) -> ProblemView {
        ProblemView {
            timelines: self.timelines@.map_values(|t: TimelinePy| t@),
            groups: self.groups@.map_values(|g: GroupPy| g@),
            tokens: self.tokens@.map_values(|t: TokenPy| t@),
        }
    }
}

/// A placed token. Times are whole time units.
#[derive(Clone, Debug)]
pub struct SolutionTokenPy {
    pub object_name: String,
    pub value: String,
    pub start_time: i64,
    pub end_time: i64,
}

impl View for SolutionTokenPy {
    type V = SolutionTokenView;

    open spec fn view(&self) -> SolutionTokenView {
        SolutionTokenView {
            object: self.object_name@,
            value: self.value@,
            start: self.start_time as int,
            end: self.end_time as int,
        }
    }
}

#[derive(Clone, Debug)]
pub struct SolutionPy {
    pub tokens: Vec<SolutionTokenPy>,
}

impl View for SolutionPy {
    type V = Seq<SolutionTokenView>;

    open spec fn view(&self) -> Seq<SolutionTokenView> {
        self.tokens@.map_values(|t: SolutionTokenPy| t@)
    }
}

/// The token time of a goal.
pub fn goal() -> (r: TokenTimePy)
    ensures
        r == None::<(Option<usize>, Option<usize>)>,
        time_from_py(r) == TokenTime::Goal,
{
    None
}

/// The token time of a fact; an absent side is left unbounded.
pub fn fact(a: Option<usize>, b: Option<usize>) -> (r: TokenTimePy)
    ensures
        r == Some((a, b)),
        time_from_py(r) == TokenTime::Fact(bound_of(a), bound_of(b)),
{
    Some((a, b))
}

} // verus!
