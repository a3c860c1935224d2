use vstd::prelude::*;
use crate::model::{
    strings_view, ConditionView, GroupView, ProblemView, TemporalRelationship, TimelineView, TokenTime,
    TokenView, ValueView,
};

verus! {

/// A temporal condition from a token to some token of `value` on one of the
/// timelines (or groups) named in `object`.
#[derive(Debug)]
pub struct Condition {
    pub temporal_relationship: TemporalRelationship,
    pub object: Vec<String>,
    pub value: String,
    pub amount: u32,
}

impl View for Condition {
    type V = ConditionView;

    open spec fn view(&self) -> ConditionView {
        ConditionView {
            relation: self.temporal_relationship,
            object: strings_view(self.object),
            value: self.value@,
            amount: self.amount,
        }
    }
}

pub open spec fn conditions_view(v: Vec<Condition>) -> Seq<ConditionView> {
    v@.map_values(|c: Condition| c@)
}

/// A legal state of a timeline: its duration interval `(min, max)` (no max:
/// unbounded), how many tokens of it may be active at once, and the
/// conditions every token of it must meet.
#[derive(Debug)]
pub struct Value {
    pub name: String,
    pub duration: (usize, Option<usize>),
    pub conditions: Vec<Condition>,
    pub capacity: u32,
}

impl View for Value {
    type V = ValueView;

    open spec fn view(&self) -> ValueView {
        ValueView {
            name: self.name@,
            duration: self.duration,
            conditions: conditions_view(self.conditions),
            capacity: self.capacity,
        }
    }
}

#[derive(Debug)]
pub struct Timeline {
    pub name: String,
    pub values: Vec<Value>,
}

impl View for Timeline {
    type V = TimelineView;

    open spec fn view(&self) -> TimelineView {
        TimelineView { name: self.name@, values: self.values@.map_values(|v: Value| v@) }
    }
}

/// A named set of timelines and groups, referenced existentially.
#[derive(Debug)]
pub struct Group {
    pub name: String,
    pub members: Vec<String>,
}

impl View for Group {
    type V = GroupView;

    open spec fn view(&self) -> GroupView {
        GroupView { name: self.name@, members: strings_view(self.members) }
    }
}

/// A required occurrence of a value on a timeline, consuming `capacity`.
#[derive(Debug)]
pub struct Token {
    pub timeline_name: String,
    pub value: String,
    pub capacity: u32,
    pub const_time: TokenTime,
    pub conditions: Vec<Condition>,
}

impl View for Token {
    type V = TokenView;

    open spec fn view(&self) -> TokenView {
        TokenView {
            timeline_name: self.timeline_name@,
            value: self.value@,
            capacity: self.capacity,
            time: self.const_time,
            conditions: conditions_view(self.conditions),
        }
    }
}

#[derive(Debug)]
pub struct Problem {
    pub timelines: Vec<Timeline>,
    pub groups: Vec<Group>,
    pub tokens: Vec<Token>,
}

impl View for Problem {
    type V = ProblemView;

    open spec fn view(&self) -> ProblemView {
        ProblemView {
            timelines: self.timelines@.map_values(|t: Timeline| t@),
            groups: self.groups@.map_values(|g: Group| g@),
            tokens: self.tokens@.map_values(|t: Token| t@),
        }
    }
}

} // verus!
