//! Laws of the session machine, each proved once and for all: which break
//! a `resume` closes, what a `stop` reports after any run of breaks and
//! resumes, and how a `status` report moves as time advances.

use vstd::prelude::*;

use crate::duration::lemma_break_total_advance;
use crate::duration::net_worked_seconds;
use crate::duration::open_break_count;
use crate::duration::report_hours;
use crate::duration::report_minutes;
use crate::duration::total_break_seconds;
use crate::session::apply_spec;
use crate::session::close_by_id;
use crate::session::report_of;
use crate::session::stamp_spec;
use crate::session::state_of;
use crate::session::Action;
use crate::session::Report;
use crate::task::has_status;
use crate::task::ledger_wf;
use crate::task::lemma_top_with_status;
use crate::task::top_with_status;
use crate::task::Status;
use crate::task::Task;
use crate::timestamp::Timestamp;

verus! {

/// There is never fewer than no open break.
proof fn lemma_open_count_nonneg(s: Seq<Task>)
    ensures
        open_break_count(s) >= 0,
    decreases s.len(),
{
    if s.len() > 0 {
        lemma_open_count_nonneg(s.drop_last());
    }
}

/// A `resume` on a ledger whose latest break is open closes exactly that
/// break — the break row with the largest id — and touches no other row.
pub proof fn lemma_resume_closes_latest(s: Seq<Task>, now: Timestamp, b: Task)
    requires
        ledger_wf(s),
        top_with_status(s, Status::Break) == Some(b),
        b.end_time is None,
    ensures
        apply_spec(s, Action::Resume, now).len() == s.len(),
        exists|i: int|
            0 <= i < s.len() && s[i] == b && apply_spec(s, Action::Resume, now)[i] == (Task {
                end_time: Some(now),
                ..b
            }),
        forall|j: int|
            0 <= j < s.len() && s[j].id != b.id ==> apply_spec(s, Action::Resume, now)[j] == s[j],
        forall|j: int| 0 <= j < s.len() && s[j].id == b.id ==> s[j] == b,
        forall|j: int| 0 <= j < s.len() && s[j].status == Status::Break ==> s[j].id <= b.id,
{
    lemma_top_with_status(s, Status::Break);
    let r = apply_spec(s, Action::Resume, now);
    let i = choose|i: int| 0 <= i < s.len() && s[i] == b;
    assert(r[i] == Task { end_time: Some(now), ..b });
    assert forall|j: int| 0 <= j < s.len() && s[j].id == b.id implies s[j] == b by {
        if j < i {
            assert(s[j].id < s[i].id);
        } else if j > i {
            assert(s[i].id < s[j].id);
        }
    }
}

/// A `status` query never changes the ledger, classifies the state the
/// same way however often it is asked, and — while at most one break is
/// open — reports a net worked time that never decreases as time
/// advances.
pub proof fn lemma_status_idempotent(s: Seq<Task>, n1: Timestamp, n2: Timestamp)
    requires
        open_break_count(s) <= 1,
        n1.instant() <= n2.instant(),
    ensures
        apply_spec(s, Action::Status, n1) == s,
        apply_spec(s, Action::Status, n2) == s,
        state_of(apply_spec(s, Action::Status, n1)) == state_of(s),
        match top_with_status(s, Status::Start) {
            Some(st) => net_worked_seconds(st, s, n1) <= net_worked_seconds(st, s, n2),
            None => true,
        },
{
    lemma_break_total_advance(s, n1, n2);
    lemma_open_count_nonneg(s);
    let d = n2.instant() - n1.instant();
    if open_break_count(s) == 0 {
        assert(total_break_seconds(s, n2) - total_break_seconds(s, n1) == 0);
    } else {
        assert(open_break_count(s) == 1);
        assert(total_break_seconds(s, n2) - total_break_seconds(s, n1) == d);
    }
}

/// At most one break row is ever open, and the open one is the latest:
/// every open break is the break row the largest id selects.
pub open spec fn open_is_latest(s: Seq<Task>) -> bool {
    forall|i: int|
        0 <= i < s.len() && (#[trigger] s[i]).is_open_break() ==> top_with_status(s, Status::Break)
            == Some(s[i])
}

/// A ledger without open breaks counts none.
proof fn lemma_count_zero(s: Seq<Task>)
    requires
        forall|i: int| 0 <= i < s.len() ==> !(#[trigger] s[i]).is_open_break(),
    ensures
        open_break_count(s) == 0,
    decreases s.len(),
{
    if s.len() > 0 {
        let p = s.drop_last();
        assert(forall|i: int| 0 <= i < p.len() ==> p[i] == #[trigger] s[i]);
        lemma_count_zero(p);
        assert(s[s.len() - 1] == s.last());
    }
}

/// A ledger in which no two rows are open breaks counts at most one.
proof fn lemma_count_le_one(s: Seq<Task>)
    requires
        forall|i: int, j: int|
            0 <= i < j < s.len() ==> !((#[trigger] s[i]).is_open_break() && (
            #[trigger] s[j]).is_open_break()),
    ensures
        open_break_count(s) <= 1,
    decreases s.len(),
{
    if s.len() > 0 {
        let p = s.drop_last();
        assert(forall|i: int| 0 <= i < p.len() ==> p[i] == #[trigger] s[i]);
        lemma_count_le_one(p);
        if s.last().is_open_break() {
            assert(s[s.len() - 1] == s.last());
            assert forall|i: int| 0 <= i < p.len() implies !(#[trigger] p[i]).is_open_break() by {
                assert(!(s[i].is_open_break() && s[s.len() - 1].is_open_break()));
            }
            lemma_count_zero(p);
        }
    }
}

/// When the open break is always the latest one, a well-formed ledger
/// holds at most one open break.
pub proof fn lemma_open_is_latest_count(s: Seq<Task>)
    requires
        ledger_wf(s),
        open_is_latest(s),
    ensures
        open_break_count(s) <= 1,
{
    assert forall|i: int, j: int| 0 <= i < j < s.len() implies !((#[trigger] s[i]).is_open_break()
        && (#[trigger] s[j]).is_open_break()) by {
        if s[i].is_open_break() && s[j].is_open_break() {
            assert(top_with_status(s, Status::Break) == Some(s[i]));
            assert(top_with_status(s, Status::Break) == Some(s[j]));
            assert(s[i].id < s[j].id);
        }
    }
    lemma_count_le_one(s);
}

/// Every command keeps the invariant that the only open break, if any,
/// is the latest break row.
pub proof fn lemma_apply_preserves_open_is_latest(s: Seq<Task>, a: Action, now: Timestamp)
    requires
        ledger_wf(s),
        open_is_latest(s),
        crate::session::next_id(s) < 0x7fffffff,
    ensures
        open_is_latest(apply_spec(s, a, now)),
{
    let r = apply_spec(s, a, now);
    lemma_top_with_status(s, Status::Break);
    match a {
        Action::Start => {
            assert(r == seq![crate::session::new_row(1, Status::Start, now)]);
            assert(forall|i: int| 0 <= i < r.len() ==> !(#[trigger] r[i]).is_open_break());
        },
        Action::Stop => {},
        Action::Status => {},
        Action::Invalid => {},
        Action::Break => {
            match top_with_status(s, Status::Break) {
                Some(b) => {
                    if b.end_time is None {
                    } else {
                        lemma_break_push_open_is_latest(s, now);
                    }
                },
                None => {
                    lemma_break_push_open_is_latest(s, now);
                },
            }
        },
        Action::Resume => {
            match top_with_status(s, Status::Break) {
                Some(b) => {
                    if b.end_time is None {
                        assert forall|i: int| 0 <= i < r.len() implies !(
                        #[trigger] r[i]).is_open_break() by {
                            if r[i].is_open_break() {
                                assert(r[i] == if s[i].id == b.id as int {
                                    Task { end_time: Some(now), ..s[i] }
                                } else {
                                    s[i]
                                });
                                assert(s[i].is_open_break());
                                assert(top_with_status(s, Status::Break) == Some(s[i]));
                                assert(s[i] == b);
                            }
                        }
                    }
                },
                None => {},
            }
        },
    }
}

/// Appending a fresh open break to a ledger whose breaks are all closed
/// leaves the new row as the one open break, and it is the latest.
proof fn lemma_break_push_open_is_latest(s: Seq<Task>, now: Timestamp)
    requires
        ledger_wf(s),
        open_is_latest(s),
        crate::session::next_id(s) < 0x7fffffff,
        match top_with_status(s, Status::Break) {
            Some(b) => !(b.end_time is None),
            None => true,
        },
    ensures
        open_is_latest(s.push(crate::session::new_row(crate::session::next_id(s), Status::Break, now))),
{
    lemma_top_with_status(s, Status::Break);
    let x = crate::session::new_row(crate::session::next_id(s), Status::Break, now);
    let r = s.push(x);
    assert(r.drop_last() =~= s);
    assert(r.last() == x);
    assert(forall|i: int| 0 <= i < s.len() ==> (#[trigger] s[i]).id < x.id);
    assert(top_with_status(r, Status::Break) == Some(x));
    assert forall|i: int| 0 <= i < r.len() && (#[trigger] r[i]).is_open_break() implies
        top_with_status(r, Status::Break) == Some(r[i]) by {
        if i < s.len() {
            assert(r[i] == s[i]);
            assert(s[i].is_open_break());
            assert(top_with_status(s, Status::Break) == Some(s[i]));
        } else {
            assert(r[i] == x);
        }
    }
}

/// One run of the machine: each action applied in turn, oldest first.
pub open spec fn run_spec(s: Seq<Task>, acts: Seq<(Action, Timestamp)>) -> Seq<Task>
    decreases acts.len(),
{
    if acts.len() == 0 {
        s
    } else {
        run_spec(apply_spec(s, acts[0].0, acts[0].1), acts.subrange(1, acts.len() as int))
    }
}

/// A session ledger mid-run: the start row first, break rows after it.
pub open spec fn session_shape(s: Seq<Task>, t0: Timestamp) -> bool {
    &&& ledger_wf(s)
    &&& s.len() >= 1
    &&& s[0].status == Status::Start
    &&& s[0].start_time == t0
    &&& forall|i: int| 1 <= i < s.len() ==> (#[trigger] s[i]).status == Status::Break
}

/// Closing rows by id changes no row's id or status and no row's opening
/// time.
proof fn lemma_close_pointwise(s: Seq<Task>, id: int, now: Timestamp)
    ensures
        close_by_id(s, id, now).len() == s.len(),
        forall|i: int|
            0 <= i < s.len() ==> {
                let c = #[trigger] close_by_id(s, id, now)[i];
                c.id == s[i].id && c.status == s[i].status && c.start_time == s[i].start_time
            },
{
}

/// Closing rows that are open breaks does not change the break total:
/// an interval open at `now` measures the same as one closed at `now`.
proof fn lemma_close_open_total(s: Seq<Task>, id: int, now: Timestamp)
    requires
        forall|i: int| 0 <= i < s.len() && (#[trigger] s[i]).id == id ==> s[i].end_time is None,
    ensures
        total_break_seconds(close_by_id(s, id, now), now) == total_break_seconds(s, now),
    decreases s.len(),
{
    if s.len() > 0 {
        let p = s.drop_last();
        assert(forall|i: int| 0 <= i < p.len() ==> p[i] == #[trigger] s[i]);
        lemma_close_open_total(p, id, now);
        assert(close_by_id(s, id, now).drop_last() =~= close_by_id(p, id, now));
        assert(s[s.len() - 1] == s.last());
    }
}

/// Closing rows that are not breaks does not change the break total.
proof fn lemma_close_nonbreak_total(s: Seq<Task>, id: int, now: Timestamp)
    requires
        forall|i: int|
            0 <= i < s.len() && (#[trigger] s[i]).id == id ==> s[i].status != Status::Break,
    ensures
        total_break_seconds(close_by_id(s, id, now), now) == total_break_seconds(s, now),
    decreases s.len(),
{
    if s.len() > 0 {
        let p = s.drop_last();
        assert(forall|i: int| 0 <= i < p.len() ==> p[i] == #[trigger] s[i]);
        lemma_close_nonbreak_total(p, id, now);
        assert(close_by_id(s, id, now).drop_last() =~= close_by_id(p, id, now));
        assert(s[s.len() - 1] == s.last());
    }
}

/// Any run of `break` and `resume` keeps the session's shape: the start
/// row stays first with its opening time, every other row is a break, and
/// ids stay within the room the run was given.
proof fn lemma_run_shape(s: Seq<Task>, acts: Seq<(Action, Timestamp)>, t0: Timestamp)
    requires
        session_shape(s, t0),
        forall|k: int|
            0 <= k < acts.len() ==> ((#[trigger] acts[k]).0 == Action::Break || acts[k].0
                == Action::Resume) && acts[k].1.valid(),
        s.last().id + acts.len() < 0x7fffffff,
    ensures
        session_shape(run_spec(s, acts), t0),
        run_spec(s, acts).last().id <= s.last().id + acts.len(),
    decreases acts.len(),
{
    if acts.len() > 0 {
        let a = acts[0].0;
        let t = acts[0].1;
        let rest = acts.subrange(1, acts.len() as int);
        assert(forall|k: int|
            0 <= k < rest.len() ==> ((#[trigger] rest[k]).0 == Action::Break || rest[k].0
                == Action::Resume) && rest[k].1.valid());
        let s1 = apply_spec(s, a, t);
        if a == Action::Break {
            match top_with_status(s, Status::Break) {
                Some(b) => {
                    if b.end_time is None {
                        assert(s1 == s);
                    } else {
                        assert(s1 == s.push(
                            crate::session::new_row(s.last().id + 1, Status::Break, t),
                        ));
                        assert(forall|i: int|
                            0 <= i < s.len() - 1 ==> (#[trigger] s[i]).id < s.last().id);
                        assert(s1.last().id == s.last().id + 1);
                    }
                },
                None => {
                    assert(s1 == s.push(crate::session::new_row(s.last().id + 1, Status::Break, t)));
                    assert(forall|i: int|
                        0 <= i < s.len() - 1 ==> (#[trigger] s[i]).id < s.last().id);
                    assert(s1.last().id == s.last().id + 1);
                },
            }
        } else {
            match top_with_status(s, Status::Break) {
                Some(b) => {
                    if b.end_time is None {
                        lemma_close_pointwise(s, b.id as int, t);
                        assert forall|i: int| 0 <= i < s1.len() implies 1 <= (
                        #[trigger] s1[i]).id < 0x7fffffff && s1[i].valid() by {
                            assert(s[i].valid());
                            assert(1 <= s[i].id < 0x7fffffff);
                        }
                        assert forall|i: int, j: int| 0 <= i < j < s1.len() implies s1[i].id
                            < s1[j].id by {
                            assert(s[i].id < s[j].id);
                        }
                        assert(s1.last().id == s.last().id);
                    } else {
                        assert(s1 == s);
                    }
                },
                None => {
                    assert(s1 == s);
                },
            }
        }
        assert(session_shape(s1, t0));
        assert(s1.last().id <= s.last().id + 1);
        lemma_run_shape(s1, rest, t0);
        assert(run_spec(s, acts) == run_spec(s1, rest));
    }
}

/// After a `start` at `t0`, any run of `break` and `resume`, and a `stop`
/// at `now`, the stop's report is exactly the elapsed time from `t0` to
/// `now` minus the sum of the run's break intervals, recomputed fresh
/// from the rows and split into floor hours and ceiling minutes.
pub proof fn lemma_stop_reports_net(
    s0: Seq<Task>,
    t0: Timestamp,
    acts: Seq<(Action, Timestamp)>,
    now: Timestamp,
)
    requires
        t0.valid(),
        now.valid(),
        forall|k: int|
            0 <= k < acts.len() ==> ((#[trigger] acts[k]).0 == Action::Break || acts[k].0
                == Action::Resume) && acts[k].1.valid(),
        acts.len() < 0x7ffffffe,
    ensures
        ({
            let l = run_spec(apply_spec(s0, Action::Start, t0), acts);
            let net = now.instant() - t0.instant() - total_break_seconds(l, now);
            report_of(stamp_spec(l, now), now, true) == (Report::Finished {
                hours: report_hours(net) as i128,
                minutes: report_minutes(net) as i128,
            })
        }),
{
    let start_row = crate::session::new_row(1, Status::Start, t0);
    let l0 = apply_spec(s0, Action::Start, t0);
    assert(l0 == seq![start_row]);
    assert(l0.last() == start_row);
    assert(session_shape(l0, t0));
    lemma_run_shape(l0, acts, t0);
    let l = run_spec(l0, acts);
    let s2 = stamp_spec(l, now);

    lemma_top_with_status(l, Status::Break);
    lemma_top_with_status(l, Status::Start);
    let st = top_with_status(l, Status::Start).unwrap();
    assert(has_status(l, Status::Start)) by {
        assert(l[0].status == Status::Start);
    }
    let si = choose|i: int| 0 <= i < l.len() && l[i] == st;

    // The intermediate ledger after the break-closing half of the stamp.
    let s1 = match top_with_status(l, Status::Break) {
        Some(b) => if b.end_time is None {
            close_by_id(l, b.id as int, now)
        } else {
            l
        },
        None => l,
    };
    match top_with_status(l, Status::Break) {
        Some(b) => {
            if b.end_time is None {
                let bi = choose|i: int| 0 <= i < l.len() && l[i] == b;
                assert forall|i: int| 0 <= i < l.len() && (#[trigger] l[i]).id == b.id as int
                    implies l[i].end_time is None by {
                    if i < bi {
                        assert(l[i].id < l[bi].id);
                    } else if i > bi {
                        assert(l[bi].id < l[i].id);
                    }
                }
                lemma_close_open_total(l, b.id as int, now);
                lemma_close_pointwise(l, b.id as int, now);
            }
        },
        None => {},
    }
    assert(total_break_seconds(s1, now) == total_break_seconds(l, now));
    assert(s1.len() == l.len());
    assert(forall|i: int|
        0 <= i < l.len() ==> (#[trigger] s1[i]).id == l[i].id && s1[i].status == l[i].status
            && s1[i].start_time == l[i].start_time);

    // The start-closing half touches only the start row, not a break.
    assert forall|i: int| 0 <= i < s1.len() && (#[trigger] s1[i]).id == st.id as int
        implies s1[i].status != Status::Break by {
        if i < si {
            assert(l[i].id < l[si].id);
        } else if i > si {
            assert(l[si].id < l[i].id);
        }
        assert(l[i] == st);
    }
    lemma_close_nonbreak_total(s1, st.id as int, now);
    lemma_close_pointwise(s1, st.id as int, now);
    assert(s2 == close_by_id(s1, st.id as int, now));
    assert(total_break_seconds(s2, now) == total_break_seconds(l, now));

    assert(s2[0].status == Status::Start);
    assert(s2[0].start_time == t0);
    // The start row at index 0 is the only one, so it is the row the
    // largest id selects.
    assert forall|i: int| 1 <= i < s2.len() implies (#[trigger] s2[i]).status == Status::Break by {
        assert(l[i].status == Status::Break);
    }
    lemma_top_with_status(s2, Status::Start);
    assert(has_status(s2, Status::Start));
    let t = top_with_status(s2, Status::Start).unwrap();
    let ti = choose|i: int| 0 <= i < s2.len() && s2[i] == t;
    assert(t.status == Status::Start);
    assert(ti == 0);
    assert(top_with_status(s2, Status::Start) == Some(s2[0]));
    let net = now.instant() - t0.instant() - total_break_seconds(l, now);
    assert(net_worked_seconds(s2[0], s2, now) == net);
}

} // verus!
