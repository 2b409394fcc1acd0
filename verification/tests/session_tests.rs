use timeit::duration::compare_break_time;
use timeit::duration::get_break_duration;
use timeit::duration::get_time_delta;
use timeit::duration::report_hours_minutes;
use timeit::session::apply;
use timeit::session::current_state;
use timeit::session::get_status;
use timeit::session::parse_action;
use timeit::session::Action;
use timeit::session::Effect;
use timeit::session::Report;
use timeit::session::SessionState;
use timeit::task::get_last_break;
use timeit::task::get_start;
use timeit::task::Status;
use timeit::task::Task;
use timeit::timestamp::Timestamp;

fn at(hour: u32, minute: u32, second: u32) -> Timestamp {
    Timestamp { year: 2024, month: 10, day: 12, hour, minute, second, offset_minutes: 120 }
}

fn open_breaks(tasks: &[Task]) -> usize {
    tasks.iter().filter(|t| t.status == Status::Break && t.end_time.is_none()).count()
}

#[test]
fn full_day_scenario_reports_net_minutes() {
    let (ledger, eff) = apply(Vec::new(), Action::Start, &at(9, 0, 0));
    assert_eq!(eff, Effect::Started);
    assert_eq!(ledger.len(), 1);
    assert_eq!(ledger[0].id, 1);
    assert_eq!(ledger[0].status, Status::Start);

    let (ledger, eff) = apply(ledger, Action::Break, &at(10, 0, 0));
    assert_eq!(eff, Effect::BreakOpened { id: 2 });
    assert_eq!(current_state(&ledger), SessionState::OnBreak);

    let (ledger, eff) = apply(ledger, Action::Resume, &at(10, 15, 0));
    assert_eq!(eff, Effect::BreakClosed { id: 2 });
    assert_eq!(current_state(&ledger), SessionState::Working);

    let stop_time = at(17, 0, 0);
    let start_row = get_start(&ledger).unwrap();
    let elapsed = compare_break_time(&start_row, &stop_time);
    assert_eq!(elapsed, 480 * 60);
    assert_eq!(get_break_duration(&ledger, &stop_time), 15 * 60);
    assert_eq!(get_time_delta(&start_row, &ledger, &stop_time), 465 * 60);

    let (stamped, report) = get_status(true, ledger, &stop_time);
    assert_eq!(report, Report::Finished { hours: 7, minutes: 45 });
    assert_eq!(stamped[0].end_time, Some(stop_time));
    assert_eq!(stamped[1].end_time, Some(at(10, 15, 0)));

    let (cleared, eff) = apply(stamped, Action::Stop, &stop_time);
    assert_eq!(eff, Effect::Stopped);
    assert!(cleared.is_empty());
}

#[test]
fn second_break_without_resume_is_a_warning_no_op() {
    let (ledger, _) = apply(Vec::new(), Action::Start, &at(9, 0, 0));
    let (ledger, _) = apply(ledger, Action::Break, &at(10, 0, 0));
    let before = ledger.clone();
    let (ledger, eff) = apply(ledger, Action::Break, &at(10, 5, 0));
    assert_eq!(eff, Effect::BreakStillOpen);
    assert_eq!(ledger, before);
    assert_eq!(open_breaks(&ledger), 1);
}

#[test]
fn resume_without_any_break_is_a_warning_no_op() {
    let (ledger, _) = apply(Vec::new(), Action::Start, &at(9, 0, 0));
    let before = ledger.clone();
    let (ledger, eff) = apply(ledger, Action::Resume, &at(10, 0, 0));
    assert_eq!(eff, Effect::NoBreakStarted);
    assert_eq!(ledger, before);
}

#[test]
fn resume_after_a_closed_break_is_a_warning_no_op() {
    let (ledger, _) = apply(Vec::new(), Action::Start, &at(9, 0, 0));
    let (ledger, _) = apply(ledger, Action::Break, &at(10, 0, 0));
    let (ledger, _) = apply(ledger, Action::Resume, &at(10, 15, 0));
    let before = ledger.clone();
    let (ledger, eff) = apply(ledger, Action::Resume, &at(10, 30, 0));
    assert_eq!(eff, Effect::NoOpenBreak);
    assert_eq!(ledger, before);
}

#[test]
fn resume_closes_the_break_with_the_largest_id() {
    // A defensive ledger with two open breaks: only the max-id one closes.
    let b1 = Task {
        id: 2,
        status: Status::Break,
        start_time: at(10, 0, 0),
        end_time: None,
    };
    let b2 = Task {
        id: 3,
        status: Status::Break,
        start_time: at(11, 0, 0),
        end_time: None,
    };
    let start = Task {
        id: 1,
        status: Status::Start,
        start_time: at(9, 0, 0),
        end_time: None,
    };
    let ledger = vec![start, b1, b2];
    let (ledger, eff) = apply(ledger, Action::Resume, &at(11, 30, 0));
    assert_eq!(eff, Effect::BreakClosed { id: 3 });
    assert_eq!(ledger[1].end_time, None);
    assert_eq!(ledger[2].end_time, Some(at(11, 30, 0)));
}

#[test]
fn start_discards_any_previous_ledger() {
    let (ledger, _) = apply(Vec::new(), Action::Start, &at(9, 0, 0));
    let (ledger, _) = apply(ledger, Action::Break, &at(10, 0, 0));
    let (ledger, eff) = apply(ledger, Action::Start, &at(11, 0, 0));
    assert_eq!(eff, Effect::Started);
    assert_eq!(ledger.len(), 1);
    assert_eq!(ledger[0].id, 1);
    assert_eq!(ledger[0].start_time, at(11, 0, 0));
}

#[test]
fn status_changes_nothing_and_classifies_the_same_twice() {
    let (ledger, _) = apply(Vec::new(), Action::Start, &at(9, 0, 0));
    let before = ledger.clone();
    let (ledger, eff) = apply(ledger, Action::Status, &at(10, 0, 0));
    assert_eq!(eff, Effect::NoChange);
    assert_eq!(ledger, before);
    assert_eq!(current_state(&ledger), SessionState::Working);
    assert_eq!(current_state(&ledger), SessionState::Working);

    let (same, r1) = get_status(false, ledger, &at(10, 0, 0));
    assert_eq!(same, before);
    let (_, r2) = get_status(false, same.clone(), &at(10, 0, 0));
    assert_eq!(r1, r2);
    let (_, later) = get_status(false, same, &at(11, 0, 0));
    match (r1, later) {
        (
            Report::WorkingFor { hours: h1, minutes: m1 },
            Report::WorkingFor { hours: h2, minutes: m2 },
        ) => {
            assert!(h2 * 60 + m2 >= h1 * 60 + m1);
        },
        other => panic!("unexpected reports: {:?}", other),
    }
}

#[test]
fn status_during_a_break_counts_the_open_break() {
    let (ledger, _) = apply(Vec::new(), Action::Start, &at(9, 0, 0));
    let (ledger, _) = apply(ledger, Action::Break, &at(10, 0, 0));
    let (same, report) = get_status(false, ledger, &at(10, 30, 0));
    // 90 minutes elapsed, 30 of them on the open break.
    assert_eq!(report, Report::OnBreakFor { hours: 1, minutes: 0 });
    assert_eq!(open_breaks(&same), 1);
}

#[test]
fn stop_counts_an_unclosed_break_up_to_the_stop_instant() {
    let (ledger, _) = apply(Vec::new(), Action::Start, &at(9, 0, 0));
    let (ledger, _) = apply(ledger, Action::Break, &at(16, 0, 0));
    let (stamped, report) = get_status(true, ledger, &at(17, 0, 0));
    // 8 hours elapsed, the last of them on the never-resumed break.
    assert_eq!(report, Report::Finished { hours: 7, minutes: 0 });
    assert_eq!(stamped[1].end_time, Some(at(17, 0, 0)));
}

#[test]
fn status_and_stop_on_an_empty_ledger_report_not_started() {
    let (_, report) = get_status(false, Vec::new(), &at(9, 0, 0));
    assert_eq!(report, Report::NotStarted);
    let (_, report) = get_status(true, Vec::new(), &at(9, 0, 0));
    assert_eq!(report, Report::NotStarted);
    assert_eq!(current_state(&Vec::new()), SessionState::Idle);
}

#[test]
fn selection_goes_by_largest_id() {
    let mk = |id: i32, status: Status| Task {
        id,
        status,
        start_time: at(9, 0, 0),
        end_time: None,
    };
    let ledger = vec![mk(1, Status::Start), mk(2, Status::Break), mk(5, Status::Break)];
    assert_eq!(get_last_break(&ledger).unwrap().id, 5);
    assert_eq!(get_start(&ledger).unwrap().id, 1);
    assert_eq!(get_last_break(&vec![mk(1, Status::Start)]), None);
    // A defensive ledger with two start rows: the max-id one is current.
    let two_starts = vec![mk(1, Status::Start), mk(2, Status::Start)];
    assert_eq!(get_start(&two_starts).unwrap().id, 2);
}

#[test]
fn report_split_floors_hours_and_ceils_minutes() {
    assert_eq!(report_hours_minutes(0), (0, 0));
    assert_eq!(report_hours_minutes(1), (0, 1));
    assert_eq!(report_hours_minutes(60), (0, 1));
    assert_eq!(report_hours_minutes(61), (0, 2));
    assert_eq!(report_hours_minutes(3599), (0, 60));
    assert_eq!(report_hours_minutes(3600), (1, 0));
    assert_eq!(report_hours_minutes(27900), (7, 45));
}

#[test]
fn the_clock_renders_a_parseable_timestamp() {
    let now = timeit::clock::current_timestamp();
    let t = now.expect("the clock must render a canonical timestamp");
    assert_eq!(t.offset_minutes == 60 || t.offset_minutes == 120, true);
}

#[test]
fn command_tokens_map_to_their_actions() {
    assert_eq!(parse_action(b"start"), Action::Start);
    assert_eq!(parse_action(b"stop"), Action::Stop);
    assert_eq!(parse_action(b"status"), Action::Status);
    assert_eq!(parse_action(b"break"), Action::Break);
    assert_eq!(parse_action(b"resume"), Action::Resume);
    assert_eq!(parse_action(b"pause"), Action::Invalid);
    assert_eq!(parse_action(b"Start"), Action::Invalid);
    assert_eq!(parse_action(b""), Action::Invalid);
}

#[test]
fn break_total_counts_closed_and_open_breaks_together() {
    let (ledger, _) = apply(Vec::new(), Action::Start, &at(9, 0, 0));
    let (ledger, _) = apply(ledger, Action::Break, &at(10, 0, 0));
    let (ledger, _) = apply(ledger, Action::Resume, &at(10, 15, 0));
    let (ledger, _) = apply(ledger, Action::Break, &at(16, 0, 0));
    // One closed break of 15 minutes, one open break accruing for an hour.
    assert_eq!(get_break_duration(&ledger, &at(17, 0, 0)), (15 + 60) * 60);
    // The open break keeps accruing as time advances; the closed one is fixed.
    assert_eq!(get_break_duration(&ledger, &at(17, 30, 0)), (15 + 90) * 60);
}

#[test]
fn report_reads_the_start_row_with_the_largest_id() {
    // A defensive ledger with two start rows: the report must measure
    // from the max-id row (10:00), not the first row in scan order.
    let s1 = Task {
        id: 1,
        status: Status::Start,
        start_time: at(9, 0, 0),
        end_time: None,
    };
    let s2 = Task {
        id: 2,
        status: Status::Start,
        start_time: at(10, 0, 0),
        end_time: None,
    };
    let ledger = vec![s1, s2];
    let (_, report) = get_status(false, ledger.clone(), &at(11, 0, 0));
    assert_eq!(report, Report::WorkingFor { hours: 1, minutes: 0 });
    let (_, report) = get_status(true, ledger, &at(11, 0, 0));
    assert_eq!(report, Report::Finished { hours: 1, minutes: 0 });
}
