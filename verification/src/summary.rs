//! What a column shows in a group's header and in the total row: an
//! aggregate function, or a range asked as its minimum and its maximum.

use vstd::prelude::*;

use crate::filters::DataType;

verus! {

/// An aggregate function of the query model.
#[derive(Clone, Copy, Debug, PartialEq, Eq, Structural)]
pub enum AggregateFn {
    Count,
    Sum,
    Avg,
    Min,
    Max,
}

impl AggregateFn {
    pub open spec fn name(self) -> Seq<char> {
        match self {
            AggregateFn::Count => "count"@,
            AggregateFn::Sum => "sum"@,
            AggregateFn::Avg => "avg"@,
            AggregateFn::Min => "min"@,
            AggregateFn::Max => "max"@,
        }
    }

    /// The wire token.
    pub fn as_str(&self) -> (s: &'static str)
        ensures
            s@ == self.name(),
    {
        match self {
            AggregateFn::Count => "count",
            AggregateFn::Sum => "sum",
            AggregateFn::Avg => "avg",
            AggregateFn::Min => "min",
            AggregateFn::Max => "max",
        }
    }
}

/// What a column summarizes its rows with.
#[derive(Clone, Copy, Debug, PartialEq, Eq, Structural)]
pub enum Summary {
    /// One aggregate function.
    Fn(AggregateFn),
    /// From the smallest to the largest value: asked as `min` and `max`.
    Range,
}

impl Summary {
    /// The functions a query asks for this summary, in order.
    pub open spec fn functions_spec(self) -> Seq<AggregateFn> {
        match self {
            Summary::Fn(f) => seq![f],
            Summary::Range => seq![AggregateFn::Min, AggregateFn::Max],
        }
    }

    /// The functions a query asks for this summary: a range is two.
    pub fn functions(&self) -> (fs: Vec<AggregateFn>)
        ensures
            fs@ == self.functions_spec(),
    {
        match self {
            Summary::Fn(f) => {
                let v = vec![*f];
                proof {
                    assert(v@ =~= seq![*f]);
                }
                v
            },
            Summary::Range => {
                let v = vec![AggregateFn::Min, AggregateFn::Max];
                proof {
                    assert(v@ =~= seq![AggregateFn::Min, AggregateFn::Max]);
                }
                v
            },
        }
    }

    /// The wire token of the choice: a function's name, or `range`.
    pub open spec fn name(self) -> Seq<char> {
        match self {
            Summary::Fn(f) => f.name(),
            Summary::Range => "range"@,
        }
    }

    /// The token the column menu and a view write for the choice.
    pub fn as_str(&self) -> (s: &'static str)
        ensures
            s@ == self.name(),
    {
        match self {
            Summary::Fn(f) => f.as_str(),
            Summary::Range => "range",
        }
    }

    /// How many values a summary answers.
    pub fn width(&self) -> (n: usize)
        ensures
            n == self.functions_spec().len(),
    {
        match self {
            Summary::Fn(_) => 1,
            Summary::Range => 2,
        }
    }
}

/// The summaries a column of type `t` offers, in menu order: every function
/// and the range for numbers; count, the smallest, the largest and the range
/// for dates and times; only count for text and truth values.
pub open spec fn aggregates_for_spec(t: DataType) -> Seq<Summary> {
    match t {
        DataType::Int64 | DataType::Float64 | DataType::Decimal { .. } => seq![
            Summary::Fn(AggregateFn::Count),
            Summary::Fn(AggregateFn::Sum),
            Summary::Fn(AggregateFn::Avg),
            Summary::Fn(AggregateFn::Min),
            Summary::Fn(AggregateFn::Max),
            Summary::Range,
        ],
        DataType::Date | DataType::Timestamp => seq![
            Summary::Fn(AggregateFn::Count),
            Summary::Fn(AggregateFn::Min),
            Summary::Fn(AggregateFn::Max),
            Summary::Range,
        ],
        DataType::Utf8 | DataType::Bool => seq![Summary::Fn(AggregateFn::Count)],
    }
}

/// The summaries a column of type `data_type` offers, in menu order.
pub fn aggregates_for(data_type: DataType) -> (s: Vec<Summary>)
    ensures
        s@ == aggregates_for_spec(data_type),
{
    let s = match data_type {
        DataType::Int64 | DataType::Float64 | DataType::Decimal { .. } => vec![
            Summary::Fn(AggregateFn::Count),
            Summary::Fn(AggregateFn::Sum),
            Summary::Fn(AggregateFn::Avg),
            Summary::Fn(AggregateFn::Min),
            Summary::Fn(AggregateFn::Max),
            Summary::Range,
        ],
        DataType::Date | DataType::Timestamp => vec![
            Summary::Fn(AggregateFn::Count),
            Summary::Fn(AggregateFn::Min),
            Summary::Fn(AggregateFn::Max),
            Summary::Range,
        ],
        DataType::Utf8 | DataType::Bool => vec![Summary::Fn(AggregateFn::Count)],
    };
    proof {
        assert(s@ =~= aggregates_for_spec(data_type));
    }
    s
}

} // verus!
