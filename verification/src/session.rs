//! The session state machine: how each command transforms the ledger, and
//! what each report says.
//!
//! Every function here is pure: it takes the ledger rows the store handed
//! back and the current time, and returns the new rows together with a
//! description of what happened.  The caller mirrors the returned rows into
//! the store and renders the description.

use vstd::prelude::*;

use crate::duration::get_time_delta;
use crate::duration::net_worked_seconds;
use crate::duration::report_hours;
use crate::duration::report_hours_minutes;
use crate::duration::report_minutes;
use crate::task::get_last_break;
use crate::task::get_start;
use crate::task::ledger_wf;
use crate::task::top_with_status;
use crate::task::Status;
use crate::task::Task;
use crate::timestamp::Timestamp;

verus! {

/// The command given on the command line.
#[derive(Clone, Copy, Debug, PartialEq, Eq, Structural)]
pub enum Action {
    Start,
    Stop,
    Status,
    Break,
    Resume,
    Invalid,
}

/// What the ledger currently says the user is doing.
#[derive(Clone, Copy, Debug, PartialEq, Eq, Structural)]
pub enum SessionState {
    Idle,
    Working,
    OnBreak,
}

/// What a command did to the ledger, for the store and the screen.
#[derive(Clone, Copy, Debug, PartialEq, Eq, Structural)]
pub enum Effect {
    /// The ledger was cleared and a fresh start row inserted.
    Started,
    /// A new break row was inserted, still open.
    BreakOpened { id: i32 },
    /// A break is still open, so the command was a warning-only no-op.
    BreakStillOpen,
    /// The open break row with this id had its end time set.
    BreakClosed { id: i32 },
    /// The latest break is already closed; warning-only no-op.
    NoOpenBreak,
    /// No break row exists at all; warning-only no-op.
    NoBreakStarted,
    /// The ledger was cleared.
    Stopped,
    /// Nothing changed: a status query or an unrecognized action.
    NoChange,
}

/// What a report says, with its duration already split into hours that
/// round down and minutes that round up.
#[derive(Clone, Copy, Debug, PartialEq, Eq, Structural)]
pub enum Report {
    /// No start row exists.
    NotStarted,
    /// The session was stopped after this much net work.
    Finished { hours: i128, minutes: i128 },
    /// The session is running and not on a break.
    WorkingFor { hours: i128, minutes: i128 },
    /// The session is running and a break is open.
    OnBreakFor { hours: i128, minutes: i128 },
}

/// The action each command token names; anything unrecognized is
/// [`Action::Invalid`].  The tokens are the ASCII words `start`, `stop`,
/// `status`, `break` and `resume`.
pub open spec fn action_of_bytes(s: Seq<u8>) -> Action {
    if s == seq![115u8, 116u8, 97u8, 114u8, 116u8] {
        Action::Start
    } else if s == seq![115u8, 116u8, 111u8, 112u8] {
        Action::Stop
    } else if s == seq![115u8, 116u8, 97u8, 116u8, 117u8, 115u8] {
        Action::Status
    } else if s == seq![98u8, 114u8, 101u8, 97u8, 107u8] {
        Action::Break
    } else if s == seq![114u8, 101u8, 115u8, 117u8, 109u8, 101u8] {
        Action::Resume
    } else {
        Action::Invalid
    }
}

/// Maps a command token to its action.
pub fn parse_action(s: &[u8]) -> (r: Action)
    ensures
        r == action_of_bytes(s@),
{
    if s.len() == 5 && s[0] == 115 && s[1] == 116 && s[2] == 97 && s[3] == 114 && s[4] == 116 {
        proof {
            assert(s@ =~= seq![115u8, 116u8, 97u8, 114u8, 116u8]);
        }
        Action::Start
    } else if s.len() == 4 && s[0] == 115 && s[1] == 116 && s[2] == 111 && s[3] == 112 {
        proof {
            assert(s@ =~= seq![115u8, 116u8, 111u8, 112u8]);
        }
        Action::Stop
    } else if s.len() == 6 && s[0] == 115 && s[1] == 116 && s[2] == 97 && s[3] == 116 && s[4]
        == 117 && s[5] == 115 {
        proof {
            assert(s@ =~= seq![115u8, 116u8, 97u8, 116u8, 117u8, 115u8]);
        }
        Action::Status
    } else if s.len() == 5 && s[0] == 98 && s[1] == 114 && s[2] == 101 && s[3] == 97 && s[4]
        == 107 {
        proof {
            assert(s@ =~= seq![98u8, 114u8, 101u8, 97u8, 107u8]);
        }
        Action::Break
    } else if s.len() == 6 && s[0] == 114 && s[1] == 101 && s[2] == 115 && s[3] == 117 && s[4]
        == 109 && s[5] == 101 {
        proof {
            assert(s@ =~= seq![114u8, 101u8, 115u8, 117u8, 109u8, 101u8]);
        }
        Action::Resume
    } else {
        Action::Invalid
    }
}

/// The state the ledger encodes.  No start row means idle, whatever else
/// the ledger holds; otherwise the latest break decides between working
/// and being on a break.
pub open spec fn state_of(s: Seq<Task>) -> SessionState {
    if top_with_status(s, Status::Start) is None {
        SessionState::Idle
    } else {
        match top_with_status(s, Status::Break) {
            Some(b) => if b.end_time is None {
                SessionState::OnBreak
            } else {
                SessionState::Working
            },
            None => SessionState::Working,
        }
    }
}

/// The id the store will give the next inserted row: one past the last
/// row's id, or 1 for an empty ledger (clearing resets the counter).
pub open spec fn next_id(s: Seq<Task>) -> int {
    if s.len() == 0 {
        1
    } else {
        s.last().id + 1
    }
}

/// A fresh row of status `st` opened at `now`.
pub open spec fn new_row(id: int, st: Status, now: Timestamp) -> Task {
    Task { id: id as i32, status: st, start_time: now, end_time: None }
}

/// Every row whose id is `id` with its end time set to `now`; all other
/// rows unchanged.  This is exactly an update-by-id against the store.
pub open spec fn close_by_id(s: Seq<Task>, id: int, now: Timestamp) -> Seq<Task> {
    s.map(
        |i: int, t: Task|
            if t.id == id {
                Task { end_time: Some(now), ..t }
            } else {
                t
            },
    )
}

/// The ledger each command leads to.
///
/// `start` always clears everything and opens a fresh session.  `break`
/// opens a new break unless the latest break is still open; deliberately,
/// it does so even on a ledger with no start row, so break tracking is
/// recorded whether or not a session is running.  `resume` closes the
/// latest break if it is open.  `stop` clears the ledger.  `status` and
/// unrecognized actions change nothing.
pub open spec fn apply_spec(s: Seq<Task>, a: Action, now: Timestamp) -> Seq<Task> {
    match a {
        Action::Start => seq![new_row(1, Status::Start, now)],
        Action::Break => match top_with_status(s, Status::Break) {
            Some(b) => if b.end_time is None {
                s
            } else {
                s.push(new_row(next_id(s), Status::Break, now))
            },
            None => s.push(new_row(next_id(s), Status::Break, now)),
        },
        Action::Resume => match top_with_status(s, Status::Break) {
            Some(b) => if b.end_time is None {
                close_by_id(s, b.id as int, now)
            } else {
                s
            },
            None => s,
        },
        Action::Stop => Seq::<Task>::empty(),
        Action::Status => s,
        Action::Invalid => s,
    }
}

/// The effect that goes with [`apply_spec`] on the same inputs.
pub open spec fn effect_spec(s: Seq<Task>, a: Action, now: Timestamp) -> Effect {
    match a {
        Action::Start => Effect::Started,
        Action::Break => match top_with_status(s, Status::Break) {
            Some(b) => if b.end_time is None {
                Effect::BreakStillOpen
            } else {
                Effect::BreakOpened { id: next_id(s) as i32 }
            },
            None => Effect::BreakOpened { id: next_id(s) as i32 },
        },
        Action::Resume => match top_with_status(s, Status::Break) {
            Some(b) => if b.end_time is None {
                Effect::BreakClosed { id: b.id }
            } else {
                Effect::NoOpenBreak
            },
            None => Effect::NoBreakStarted,
        },
        Action::Stop => Effect::Stopped,
        Action::Status => Effect::NoChange,
        Action::Invalid => Effect::NoChange,
    }
}

/// Reports the state the ledger encodes.
pub fn current_state(tasks: &Vec<Task>) -> (r: SessionState)
    ensures
        r == state_of(tasks@),
{
    match get_start(tasks) {
        None => SessionState::Idle,
        Some(_) => match get_last_break(tasks) {
            Some(b) => match b.end_time {
                None => SessionState::OnBreak,
                Some(_) => SessionState::Working,
            },
            None => SessionState::Working,
        },
    }
}

/// Sets the end time of every row whose id is `id` to `now`.
fn close_rows_by_id(tasks: Vec<Task>, id: i32, now: &Timestamp) -> (r: Vec<Task>)
    ensures
        r@ == close_by_id(tasks@, id as int, *now),
{
    let mut r: Vec<Task> = Vec::new();
    let mut i: usize = 0;
    while i < tasks.len()
        invariant
            i <= tasks@.len(),
            r@ == close_by_id(tasks@.take(i as int), id as int, *now),
        decreases tasks@.len() - i,
    {
        let t = tasks[i];
        if t.id == id {
            r.push(Task { end_time: Some(*now), ..t });
        } else {
            r.push(t);
        }
        proof {
            assert(close_by_id(tasks@.take(i + 1 as int), id as int, *now) =~= close_by_id(
                tasks@.take(i as int),
                id as int,
                *now,
            ).push(
                if tasks@[i as int].id == id as int {
                    Task { end_time: Some(*now), ..tasks@[i as int] }
                } else {
                    tasks@[i as int]
                },
            ));
        }
        i = i + 1;
    }
    proof {
        assert(tasks@.take(tasks@.len() as int) =~= tasks@);
    }
    r
}

/// Applies one command to the ledger, returning the new rows and the
/// effect the caller must mirror into the store.  The new ledger is
/// well-formed again.  A `break` needs room for one more row id, which
/// the store's 31-bit id space forces.
pub fn apply(tasks: Vec<Task>, action: Action, now: &Timestamp) -> (r: (Vec<Task>, Effect))
    requires
        ledger_wf(tasks@),
        now.valid(),
        action == Action::Break ==> next_id(tasks@) < 0x7fffffff,
    ensures
        r.0@ == apply_spec(tasks@, action, *now),
        r.1 == effect_spec(tasks@, action, *now),
        ledger_wf(r.0@),
{
    proof {
        crate::task::lemma_top_with_status(tasks@, Status::Break);
    }
    match action {
        Action::Start => {
            let mut v: Vec<Task> = Vec::new();
            v.push(Task { id: 1, status: Status::Start, start_time: *now, end_time: None });
            proof {
                assert(v@ =~= apply_spec(tasks@, action, *now));
            }
            (v, Effect::Started)
        },
        Action::Break => {
            let last_break = get_last_break(&tasks);
            let still_open = match last_break {
                Some(b) => b.end_time.is_none(),
                None => false,
            };
            if still_open {
                (tasks, Effect::BreakStillOpen)
            } else {
                let id: i32 = if tasks.len() == 0 {
                    1
                } else {
                    tasks[tasks.len() - 1].id + 1
                };
                let mut v = tasks;
                v.push(Task { id, status: Status::Break, start_time: *now, end_time: None });
                proof {
                    assert(forall|i: int|
                        0 <= i < v@.len() - 1 ==> (#[trigger] v@[i]).id < v@[v@.len() - 1].id);
                }
                (v, Effect::BreakOpened { id })
            }
        },
        Action::Resume => {
            let last_break = get_last_break(&tasks);
            match last_break {
                Some(b) => {
                    if b.end_time.is_none() {
                        let v = close_rows_by_id(tasks, b.id, now);
                        (v, Effect::BreakClosed { id: b.id })
                    } else {
                        (tasks, Effect::NoOpenBreak)
                    }
                },
                None => (tasks, Effect::NoBreakStarted),
            }
        },
        Action::Stop => {
            let v: Vec<Task> = Vec::new();
            proof {
                assert(v@ =~= Seq::<Task>::empty());
            }
            (v, Effect::Stopped)
        },
        Action::Status => (tasks, Effect::NoChange),
        Action::Invalid => (tasks, Effect::NoChange),
    }
}

/// The closing pass a `stop` makes before the ledger is cleared: the
/// latest break, if still open, and the latest start row get their end
/// times set to `now`.  Rows are addressed by id, as the store's updates
/// are.
pub open spec fn stamp_spec(s: Seq<Task>, now: Timestamp) -> Seq<Task> {
    let s1 = match top_with_status(s, Status::Break) {
        Some(b) => if b.end_time is None {
            close_by_id(s, b.id as int, now)
        } else {
            s
        },
        None => s,
    };
    match top_with_status(s, Status::Start) {
        Some(st) => close_by_id(s1, st.id as int, now),
        None => s1,
    }
}

/// The report the rows `s2` yield at time `now`.  The worked duration is
/// always recomputed fresh: elapsed time from the start row's opening
/// instant to `now`, minus every break interval, split into hours that
/// round down and minutes that round up.  Should a defensive ledger hold
/// several start rows, the one with the largest id — the current start —
/// is the session's opening.
pub open spec fn report_of(s2: Seq<Task>, now: Timestamp, end: bool) -> Report {
    match top_with_status(s2, Status::Start) {
        None => Report::NotStarted,
        Some(st) => {
            let net = net_worked_seconds(st, s2, now);
            let h = report_hours(net) as i128;
            let m = report_minutes(net) as i128;
            if end {
                Report::Finished { hours: h, minutes: m }
            } else {
                match top_with_status(s2, Status::Break) {
                    Some(b) => if b.end_time is None {
                        Report::OnBreakFor { hours: h, minutes: m }
                    } else {
                        Report::WorkingFor { hours: h, minutes: m }
                    },
                    None => Report::WorkingFor { hours: h, minutes: m },
                }
            }
        },
    }
}

/// Closing rows by id keeps the ledger well-formed: ids are untouched and
/// the stamped end time is a valid timestamp.
pub proof fn lemma_close_preserves_wf(s: Seq<Task>, id: int, now: Timestamp)
    requires
        ledger_wf(s),
        now.valid(),
    ensures
        ledger_wf(close_by_id(s, id, now)),
{
    let c = close_by_id(s, id, now);
    assert forall|i: int| 0 <= i < c.len() implies 1 <= (#[trigger] c[i]).id < 0x7fffffff
        && c[i].valid() by {
        assert(s[i].valid());
        assert(1 <= s[i].id < 0x7fffffff);
    }
    assert forall|i: int, j: int| 0 <= i < j < c.len() implies c[i].id < c[j].id by {
        assert(1 <= (c[i]).id < 0x7fffffff);
        assert(s[i].id < s[j].id);
    }
}

/// Computes the report for the ledger, stamping end times first when
/// `end` is set (the closing pass a `stop` makes).  Returns the rows the
/// report was computed over — the stamped rows for `end`, the rows
/// unchanged otherwise — and the report itself.
pub fn get_status(end: bool, tasks: Vec<Task>, now: &Timestamp) -> (r: (Vec<Task>, Report))
    requires
        ledger_wf(tasks@),
        now.valid(),
    ensures
        r.0@ == if end {
            stamp_spec(tasks@, *now)
        } else {
            tasks@
        },
        ledger_wf(r.0@),
        r.1 == report_of(r.0@, *now, end),
{
    let stamped: Vec<Task> = if end {
        let lb = get_last_break(&tasks);
        let st = get_start(&tasks);
        let open_break_id: Option<i32> = match lb {
            Some(b) => match b.end_time {
                None => Some(b.id),
                Some(_) => None,
            },
            None => None,
        };
        let s1 = match open_break_id {
            Some(bid) => {
                proof {
                    lemma_close_preserves_wf(tasks@, bid as int, *now);
                }
                close_rows_by_id(tasks, bid, now)
            },
            None => tasks,
        };
        match st {
            Some(t) => {
                proof {
                    lemma_close_preserves_wf(s1@, t.id as int, *now);
                }
                close_rows_by_id(s1, t.id, now)
            },
            None => s1,
        }
    } else {
        tasks
    };
    let rep: Report = match get_start(&stamped) {
        None => Report::NotStarted,
        Some(current) => {
            proof {
                crate::task::lemma_top_with_status(stamped@, Status::Start);
                let i = choose|i: int| 0 <= i < stamped@.len() && stamped@[i] == current;
                assert(stamped@[i].valid());
            }
            let net = get_time_delta(&current, &stamped, now);
            let hm = report_hours_minutes(net);
            if end {
                Report::Finished { hours: hm.0, minutes: hm.1 }
            } else {
                match get_last_break(&stamped) {
                    Some(b) => match b.end_time {
                        None => Report::OnBreakFor { hours: hm.0, minutes: hm.1 },
                        Some(_) => Report::WorkingFor { hours: hm.0, minutes: hm.1 },
                    },
                    None => Report::WorkingFor { hours: hm.0, minutes: hm.1 },
                }
            }
        },
    };
    (stamped, rep)
}

} // verus!
