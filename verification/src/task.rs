//! The ledger's rows and the selection helpers over them.
//!
//! A session is a sequence of [`Task`] rows: one `Start` row and any number
//! of `Break` rows, each an interval with an optional close time.  Rows are
//! selected by largest id (ids grow with insertion, so the largest id is the
//! most recently inserted row), mirroring how the store assigns row ids.

use vstd::prelude::*;

use crate::timestamp::Timestamp;

verus! {

/// The single positional command-line argument.
pub struct Cli {
    pub action: String,
}

/// What a ledger row records: the session's opening, or one break.
#[derive(Clone, Copy, Debug, PartialEq, Eq, Structural)]
pub enum Status {
    Start,
    Break,
}

/// One ledger row: an interval that began at `start_time` and is either
/// still open (`end_time` absent) or closed.
#[derive(Clone, Copy, Debug, PartialEq)]
pub struct Task {
    pub id: i32,
    pub status: Status,
    pub start_time: Timestamp,
    pub end_time: Option<Timestamp>,
}

impl Task {
    /// Both of the row's timestamps are valid calendar times.
    pub open spec fn valid(self) -> bool {
        &&& self.start_time.valid()
        &&& match self.end_time {
            Some(e) => e.valid(),
            None => true,
        }
    }

    /// The row is a break whose `end_time` is still absent.
    pub open spec fn is_open_break(self) -> bool {
        self.status == Status::Break && self.end_time is None
    }
}

/// A well-formed ledger: ids are positive, strictly increasing in row
/// order (the store hands rows back in insertion order), small enough that
/// one more row can be numbered, and every timestamp is valid.
pub open spec fn ledger_wf(s: Seq<Task>) -> bool {
    &&& forall|i: int, j: int| 0 <= i < j < s.len() ==> s[i].id < s[j].id
    &&& forall|i: int| 0 <= i < s.len() ==> 1 <= #[trigger] s[i].id < 0x7fffffff
    &&& forall|i: int| 0 <= i < s.len() ==> (#[trigger] s[i]).valid()
}

/// The row of status `st` with the largest id, the later row on a tie —
/// exactly the row a scan keeping each candidate whose id is at least the
/// running maximum would end with.
pub open spec fn top_with_status(s: Seq<Task>, st: Status) -> Option<Task>
    decreases s.len(),
{
    if s.len() == 0 {
        None
    } else {
        let rest = top_with_status(s.drop_last(), st);
        if s.last().status != st {
            rest
        } else {
            match rest {
                None => Some(s.last()),
                Some(m) => if s.last().id >= m.id {
                    Some(s.last())
                } else {
                    Some(m)
                },
            }
        }
    }
}

/// Whether some row of status `st` exists.
pub open spec fn has_status(s: Seq<Task>, st: Status) -> bool {
    exists|i: int| 0 <= i < s.len() && s[i].status == st
}

/// The selected row exists exactly when a row of that status exists, is
/// itself of that status, appears in the ledger, and no row of that status
/// has a larger id.
pub proof fn lemma_top_with_status(s: Seq<Task>, st: Status)
    ensures
        top_with_status(s, st) is Some <==> has_status(s, st),
        match top_with_status(s, st) {
            Some(t) => {
                &&& t.status == st
                &&& exists|i: int| 0 <= i < s.len() && s[i] == t
                &&& forall|i: int| 0 <= i < s.len() && s[i].status == st ==> s[i].id <= t.id
            },
            None => true,
        },
    decreases s.len(),
{
    if s.len() > 0 {
        lemma_top_with_status(s.drop_last(), st);
        assert forall|i: int| 0 <= i < s.len() - 1 implies s.drop_last()[i] == s[i] by {}
        if s.last().status == st {
            assert(s[s.len() - 1].status == st);
        }
        match top_with_status(s, st) {
            Some(t) => {
                if t == s.last() {
                    assert(s[s.len() - 1] == t);
                }
            },
            None => {},
        }
    }
}

/// Returns the break row with the largest id, if any break row exists.
pub fn get_last_break(tasks: &Vec<Task>) -> (r: Option<Task>)
    ensures
        r == top_with_status(tasks@, Status::Break),
{
    get_top_with_status(tasks, Status::Break)
}

/// Returns the start row with the largest id, if any start row exists.
pub fn get_start(tasks: &Vec<Task>) -> (r: Option<Task>)
    ensures
        r == top_with_status(tasks@, Status::Start),
{
    get_top_with_status(tasks, Status::Start)
}

/// Scans the ledger keeping the row of status `st` with the largest id.
fn get_top_with_status(tasks: &Vec<Task>, st: Status) -> (r: Option<Task>)
    ensures
        r == top_with_status(tasks@, st),
{
    let mut r: Option<Task> = None;
    let mut i: usize = 0;
    while i < tasks.len()
        invariant
            i <= tasks@.len(),
            r == top_with_status(tasks@.take(i as int), st),
        decreases tasks@.len() - i,
    {
        proof {
            assert(tasks@.take(i + 1 as int).drop_last() =~= tasks@.take(i as int));
            assert(tasks@.take(i + 1 as int).last() == tasks@[i as int]);
        }
        let t = tasks[i];
        if t.status == st {
            match r {
                None => {
                    r = Some(t);
                },
                Some(m) => {
                    if t.id >= m.id {
                        r = Some(t);
                    }
                },
            }
        }
        i = i + 1;
    }
    proof {
        assert(tasks@.take(tasks@.len() as int) =~= tasks@);
    }
    r
}

} // verus!
