//! Duration accounting over the ledger.
//!
//! All durations are whole seconds between instants; nothing is rounded
//! until the final split of a total into hours and minutes, where hours
//! round down and minutes round up, exactly as the reports print them.

use vstd::prelude::*;

use crate::task::Status;
use crate::task::Task;
use crate::timestamp::Timestamp;

verus! {

/// Seconds covered by one row's interval at time `now`: up to its
/// `end_time` if the row is closed, else up to `now`.
pub open spec fn interval_seconds(t: Task, now: Timestamp) -> int {
    match t.end_time {
        Some(e) => e.instant() - t.start_time.instant(),
        None => now.instant() - t.start_time.instant(),
    }
}

/// Total seconds of all break rows at time `now`; an open break accrues up
/// to `now`.
pub open spec fn total_break_seconds(s: Seq<Task>, now: Timestamp) -> int
    decreases s.len(),
{
    if s.len() == 0 {
        0
    } else {
        total_break_seconds(s.drop_last(), now) + if s.last().status == Status::Break {
            interval_seconds(s.last(), now)
        } else {
            0
        }
    }
}

/// Seconds worked net of breaks: elapsed time from `start`'s opening
/// instant to `now`, minus every break interval.
pub open spec fn net_worked_seconds(start: Task, s: Seq<Task>, now: Timestamp) -> int {
    (now.instant() - start.start_time.instant()) - total_break_seconds(s, now)
}

/// Total seconds of the break rows that are still open at `now`.
pub open spec fn open_break_seconds(s: Seq<Task>, now: Timestamp) -> int
    decreases s.len(),
{
    if s.len() == 0 {
        0
    } else {
        open_break_seconds(s.drop_last(), now) + if s.last().is_open_break() {
            now.instant() - s.last().start_time.instant()
        } else {
            0
        }
    }
}

/// Total seconds of the closed break rows; independent of `now`.
pub open spec fn closed_break_seconds(s: Seq<Task>) -> int
    decreases s.len(),
{
    if s.len() == 0 {
        0
    } else {
        closed_break_seconds(s.drop_last()) + match s.last().end_time {
            Some(e) => if s.last().status == Status::Break {
                e.instant() - s.last().start_time.instant()
            } else {
                0
            },
            None => 0,
        }
    }
}

/// How many break rows are still open.
pub open spec fn open_break_count(s: Seq<Task>) -> int
    decreases s.len(),
{
    if s.len() == 0 {
        0
    } else {
        open_break_count(s.drop_last()) + if s.last().is_open_break() {
            1int
        } else {
            0int
        }
    }
}

/// The break total at time `now` is the sum, over the breaks still open,
/// of `now` minus their opening instant, plus the closed breaks' fixed
/// intervals.
pub proof fn lemma_break_total_splits(s: Seq<Task>, now: Timestamp)
    ensures
        total_break_seconds(s, now) == open_break_seconds(s, now) + closed_break_seconds(s),
    decreases s.len(),
{
    if s.len() > 0 {
        lemma_break_total_splits(s.drop_last(), now);
    }
}

/// Advancing `now` grows the break total by the advance once per open
/// break, and leaves closed breaks untouched.
pub proof fn lemma_break_total_advance(s: Seq<Task>, n1: Timestamp, n2: Timestamp)
    ensures
        total_break_seconds(s, n2) - total_break_seconds(s, n1) == open_break_count(s) * (
        n2.instant() - n1.instant()),
    decreases s.len(),
{
    if s.len() > 0 {
        lemma_break_total_advance(s.drop_last(), n1, n2);
        let c = open_break_count(s.drop_last());
        let d = n2.instant() - n1.instant();
        assert((c + 1) * d == c * d + d) by (nonlinear_arith);
    }
}

/// Seconds covered by one row's interval at `now`; the executable
/// [`interval_seconds`].
pub fn compare_break_time(task: &Task, now: &Timestamp) -> (r: i64)
    requires
        task.valid(),
        now.valid(),
    ensures
        r == interval_seconds(*task, *now),
        -320000100000i64 <= r <= 320000100000i64,
{
    let s = task.start_time.instant_seconds();
    let e = match task.end_time {
        Some(end) => end.instant_seconds(),
        None => now.instant_seconds(),
    };
    e - s
}

/// Sums every break row's interval at `now`; the executable
/// [`total_break_seconds`].
pub fn get_break_duration(tasks: &Vec<Task>, now: &Timestamp) -> (r: i128)
    requires
        forall|i: int| 0 <= i < tasks@.len() ==> (#[trigger] tasks@[i]).valid(),
        now.valid(),
    ensures
        r == total_break_seconds(tasks@, *now),
        -400000000000i128 * tasks@.len() <= r <= 400000000000i128 * tasks@.len(),
{
    let mut acc: i128 = 0;
    let mut i: usize = 0;
    while i < tasks.len()
        invariant
            i <= tasks@.len(),
            forall|k: int| 0 <= k < tasks@.len() ==> (#[trigger] tasks@[k]).valid(),
            now.valid(),
            acc == total_break_seconds(tasks@.take(i as int), *now),
            -400000000000i128 * (i as i128) <= acc <= 400000000000i128 * (i as i128),
        decreases tasks@.len() - i,
    {
        proof {
            assert(tasks@.take(i + 1 as int).drop_last() =~= tasks@.take(i as int));
            assert(tasks@.take(i + 1 as int).last() == tasks@[i as int]);
        }
        let t = &tasks[i];
        if matches!(t.status, Status::Break) {
            let d = compare_break_time(t, now);
            acc = acc + d as i128;
        }
        i = i + 1;
    }
    proof {
        assert(tasks@.take(tasks@.len() as int) =~= tasks@);
    }
    acc
}

/// Seconds worked net of breaks, from `task`'s opening instant to `now`;
/// the executable [`net_worked_seconds`].  Always recomputed from the rows
/// it is given; nothing is cached.
pub fn get_time_delta(task: &Task, tasks: &Vec<Task>, now: &Timestamp) -> (r: i128)
    requires
        task.valid(),
        forall|i: int| 0 <= i < tasks@.len() ==> (#[trigger] tasks@[i]).valid(),
        now.valid(),
    ensures
        r == net_worked_seconds(*task, tasks@, *now),
{
    let s = task.start_time.instant_seconds();
    let n = now.instant_seconds();
    let elapsed: i128 = n as i128 - s as i128;
    // The row count fits a usize, which bounds the break total well
    // inside the result type.
    let rows: usize = tasks.len();
    let breaks = get_break_duration(tasks, now);
    proof {
        assert(breaks <= 400000000000i128 * (rows as i128));
    }
    elapsed - breaks
}

/// Hours of a report: the total rounded down to whole hours.
pub open spec fn report_hours(total_seconds: int) -> int {
    total_seconds / 3600
}

/// Minutes of a report: the seconds left over after whole hours, rounded
/// up to whole minutes.  A leftover of 59 minutes and a second is printed
/// as 60 minutes, as the reports always have.
pub open spec fn report_minutes(total_seconds: int) -> int {
    (total_seconds % 3600 + 59) / 60
}

/// Splits a second total into report hours and minutes: hours round down,
/// minutes round up.  A negative total (a malformed, future-dated ledger)
/// is split against its floored hour count, so the minute part is never
/// negative.
pub fn report_hours_minutes(total_seconds: i128) -> (r: (i128, i128))
    ensures
        r.0 == report_hours(total_seconds as int),
        r.1 == report_minutes(total_seconds as int),
        0 <= r.1 <= 60,
{
    if total_seconds >= 0 {
        let h = total_seconds / 3600;
        let frac = total_seconds % 3600;
        (h, (frac + 59) / 60)
    } else {
        let q = total_seconds / 3600;
        let rem = total_seconds % 3600;
        if rem == 0 {
            (q, 0)
        } else {
            let h = q - 1;
            let frac = rem + 3600;
            (h, (frac + 59) / 60)
        }
    }
}

} // verus!
