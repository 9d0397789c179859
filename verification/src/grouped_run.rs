//! The run of a grouped query, one answer at a time: which query comes next,
//! when a run has been overtaken by a newer one, when it fails, and when it
//! falls back to an ungrouped grid.
//!
//! A run asks, in order: the typed schema and the level-1 groups with their
//! grand total (only when the groups are stale), the subgroups of every open
//! level-1 group that has none yet, and the rows of each group the window
//! touches — or the schema alone when no open group is in the window and no
//! typed schema came with the groups. Every answer is first checked against
//! the run's generation: a run that a newer one has overtaken stops without
//! a word.

use vstd::prelude::*;

verus! {

/// A query of a grouped run.
#[derive(Clone, Copy, Debug, PartialEq, Eq, Structural)]
pub enum Stage {
    /// Nothing asked yet.
    Start,
    /// The probe for the typed schema.
    Probe,
    /// The level-1 groups.
    Groups,
    /// The grand total.
    Total,
    /// The subgroups of the `i`-th open level-1 group that has none.
    Children(usize),
    /// The rows of the `i`-th fetch of the window.
    Rows(usize),
    /// The schema alone.
    Schema,
}

/// What a run does next.
#[derive(Clone, Debug, PartialEq, Eq)]
pub enum Next {
    /// Ask this query.
    Ask(Stage),
    /// Show this error.
    Fail(String),
    /// The key column cannot be grouped by: say so and run ungrouped.
    Ungroup,
    /// Assemble the page and show it.
    Settle,
    /// A newer run took over, or the grouping is gone: do nothing more.
    Stop,
}

/// The value of what a run does next.
pub enum NextV {
    Ask(Stage),
    Fail(Seq<char>),
    Ungroup,
    Settle,
    Stop,
}

/// The value of a next step.
pub open spec fn next_view(n: Next) -> NextV {
    match n {
        Next::Ask(s) => NextV::Ask(s),
        Next::Fail(m) => NextV::Fail(m@),
        Next::Ungroup => NextV::Ungroup,
        Next::Settle => NextV::Settle,
        Next::Stop => NextV::Stop,
    }
}

/// What a run knows when it starts and learns on the way.
#[derive(Clone, Copy, Debug)]
pub struct RunFacts {
    /// The groups must be asked again: the filter changed or they never
    /// arrived.
    pub need_groups: bool,
    /// The grid is still grouped.
    pub grouped: bool,
    /// There is a second level.
    pub second_level: bool,
    /// How many open level-1 groups have no subgroups yet.
    pub missing: usize,
    /// How many fetches the window needs.
    pub fetches: usize,
    /// The typed schema came with the groups.
    pub typed: bool,
}

/// What came back from a query: the result, read as far as the run needs
/// it, or the provider's error.
#[derive(Clone, Debug, PartialEq, Eq)]
pub enum Reply {
    /// A result. For the groups: whether their key column can be grouped by
    /// (true when the result names no column). For the groups and the
    /// subgroups: the error they could not be read with, if any.
    Answered { groupable: bool, unreadable: Option<String> },
    /// The provider's error.
    Refused(String),
}

/// The value of a reply.
pub enum ReplyV {
    Answered { groupable: bool, unreadable: Option<Seq<char>> },
    Refused(Seq<char>),
}

/// The value of a reply.
pub open spec fn reply_view(r: Reply) -> ReplyV {
    match r {
        Reply::Answered { groupable, unreadable } => ReplyV::Answered {
            groupable,
            unreadable: match unreadable {
                Some(m) => Some(m@),
                None => None,
            },
        },
        Reply::Refused(m) => ReplyV::Refused(m@),
    }
}

/// The rows of the window, once the groups are in place: the first fetch,
/// or the page at once when the typed schema is there, or the schema alone.
pub open spec fn rows_phase(f: RunFacts) -> NextV {
    if !f.grouped {
        NextV::Stop
    } else if f.fetches > 0 {
        NextV::Ask(Stage::Rows(0))
    } else if f.typed {
        NextV::Settle
    } else {
        NextV::Ask(Stage::Schema)
    }
}

/// The subgroups, once the level-1 groups are in place: the first missing
/// one, or on to the rows.
pub open spec fn children_phase(f: RunFacts) -> NextV {
    if !f.grouped {
        NextV::Stop
    } else if f.second_level && f.missing > 0 {
        NextV::Ask(Stage::Children(0))
    } else {
        rows_phase(f)
    }
}

/// What a grouped run does after `stage` answered `reply`; `stale` says
/// that a newer run has started since.
pub open spec fn next_spec(stage: Stage, reply: ReplyV, stale: bool, f: RunFacts) -> NextV {
    match stage {
        Stage::Start => if f.need_groups {
            if f.grouped {
                NextV::Ask(Stage::Probe)
            } else {
                NextV::Stop
            }
        } else {
            children_phase(f)
        },
        _ => match reply {
            ReplyV::Refused(message) => NextV::Fail(message),
            ReplyV::Answered { groupable, unreadable } => if stale {
                NextV::Stop
            } else {
                match stage {
                    Stage::Probe => NextV::Ask(Stage::Groups),
                    Stage::Groups => if !groupable {
                        NextV::Ungroup
                    } else {
                        match unreadable {
                            Some(message) => NextV::Fail(message),
                            None => NextV::Ask(Stage::Total),
                        }
                    },
                    Stage::Total => children_phase(f),
                    Stage::Children(i) => match unreadable {
                        Some(message) => NextV::Fail(message),
                        None => if !f.grouped {
                            NextV::Stop
                        } else if i + 1 < f.missing {
                            NextV::Ask(Stage::Children((i + 1) as usize))
                        } else {
                            rows_phase(f)
                        },
                    },
                    Stage::Rows(i) => if i + 1 < f.fetches {
                        NextV::Ask(Stage::Rows((i + 1) as usize))
                    } else {
                        NextV::Settle
                    },
                    _ => NextV::Settle,
                }
            },
        },
    }
}

/// The rows of the window, once the groups are in place.
fn rows_next(f: &RunFacts) -> (n: Next)
    ensures
        next_view(n) == rows_phase(*f),
{
    if !f.grouped {
        Next::Stop
    } else if f.fetches > 0 {
        Next::Ask(Stage::Rows(0))
    } else if f.typed {
        Next::Settle
    } else {
        Next::Ask(Stage::Schema)
    }
}

/// The subgroups, once the level-1 groups are in place.
fn children_next(f: &RunFacts) -> (n: Next)
    ensures
        next_view(n) == children_phase(*f),
{
    if !f.grouped {
        Next::Stop
    } else if f.second_level && f.missing > 0 {
        Next::Ask(Stage::Children(0))
    } else {
        rows_next(f)
    }
}

/// What a grouped run does after `stage` answered `reply`, `stale` when a
/// newer run has started since: the next query, the error to show, the
/// fall back to an ungrouped grid, the page, or nothing.
pub fn run_grouped(stage: Stage, reply: Reply, stale: bool, facts: &RunFacts) -> (n: Next)
    ensures
        next_view(n) == next_spec(stage, reply_view(reply), stale, *facts),
{
    if let Stage::Start = stage {
        if facts.need_groups {
            if facts.grouped {
                return Next::Ask(Stage::Probe);
            }
            return Next::Stop;
        }
        return children_next(facts);
    }
    match reply {
        Reply::Refused(message) => Next::Fail(message),
        Reply::Answered { groupable, unreadable } => {
            if stale {
                return Next::Stop;
            }
            match stage {
                Stage::Probe => Next::Ask(Stage::Groups),
                Stage::Groups => if !groupable {
                    Next::Ungroup
                } else {
                    match unreadable {
                        Some(message) => Next::Fail(message),
                        None => Next::Ask(Stage::Total),
                    }
                },
                Stage::Total => children_next(facts),
                Stage::Children(i) => match unreadable {
                    Some(message) => Next::Fail(message),
                    None => if !facts.grouped {
                        Next::Stop
                    } else if i < facts.missing && i + 1 < facts.missing {
                        Next::Ask(Stage::Children(i + 1))
                    } else {
                        rows_next(facts)
                    },
                },
                Stage::Rows(i) => if i < facts.fetches && i + 1 < facts.fetches {
                    Next::Ask(Stage::Rows(i + 1))
                } else {
                    Next::Settle
                },
                _ => Next::Settle,
            }
        },
    }
}

/// Where a query stands in the order a run asks them.
pub open spec fn rank(stage: Stage, f: RunFacts) -> int {
    match stage {
        Stage::Start => 0,
        Stage::Probe => 1,
        Stage::Groups => 2,
        Stage::Total => 3,
        Stage::Children(i) => 4 + i,
        Stage::Rows(i) => 4 + f.missing + i,
        Stage::Schema => 4 + f.missing + f.fetches,
    }
}

/// Whether a query is one the run can have asked: a missing group's
/// subgroups, a fetch of the window.
pub open spec fn valid_stage(stage: Stage, f: RunFacts) -> bool {
    match stage {
        Stage::Children(i) => i < f.missing,
        Stage::Rows(i) => i < f.fetches,
        _ => true,
    }
}

/// A run only moves forward: every query it asks next is one it can ask and
/// comes after the one just answered, so no query is asked twice and every
/// run ends.
pub proof fn lemma_run_moves_forward(stage: Stage, reply: ReplyV, stale: bool, f: RunFacts)
    requires
        valid_stage(stage, f),
    ensures
        next_spec(stage, reply, stale, f) matches NextV::Ask(s) ==> valid_stage(s, f) && rank(s, f)
            > rank(stage, f),
{
}

} // verus!
