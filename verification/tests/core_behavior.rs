use punch_card::AggregateDay;
use punch_card::Config;
use punch_card::Day;
use punch_card::DayError;
use punch_card::Dt;
use punch_card::Interval;
use punch_card::interval::IntervalError;

fn hm(h: i64, m: i64) -> Dt {
    Dt(h * 3600 + m * 60)
}

#[test]
fn test_interval_closes_exactly_once() {
    let mut iv = Interval::new(Dt(100));
    assert!(!iv.has_end());
    assert!(iv.end_at(Dt(150)).is_ok());
    assert!(iv.has_end());
    assert_eq!(iv.end_at(Dt(200)), Err(IntervalError::AlreadyEnded));
    assert_eq!(iv.get_length_secs(), Some(50));
    assert_eq!(iv.get_length_mins(), Some(0));
}

#[test]
fn test_interval_negative_length_is_not_rejected() {
    let mut iv = Interval::new(Dt(100));
    assert!(iv.end_at(Dt(40)).is_ok());
    assert_eq!(iv.get_length_secs(), Some(-60));
    assert_eq!(iv.get_length(), Some(-1));
}

#[test]
fn test_new_day_is_open_with_one_block() {
    let day = Day::new(hm(9, 0), "Write".to_string(), 480, None);
    assert!(!day.has_ended());
    assert_eq!(day.get_total_timeblocks(), 1);
    assert_eq!(day.get_total_break_timeblocks(), 0);
    assert_eq!(day.get_latest_task_name(), "Write");
    assert_eq!(day.get_day_length_secs(), None);
    assert_eq!(day.get_time_done_secs(), None);
    assert_eq!(day.get_time_left_secs(), None);
}

/// The scenario of a full day: punch in at 09:00 on "Write", switch to
/// "Review" at 10:00, break "Lunch" 12:00-12:30, resume "Review", punch out
/// at 17:00 with an eight-hour target.
fn full_day() -> Day {
    let mut day = Day::new(hm(9, 0), "Write".to_string(), 480, None);
    day.start_new_block("Review".to_string(), hm(10, 0)).unwrap();
    day.start_break_at("Lunch".to_string(), hm(12, 0)).unwrap();
    day.start_new_block("Review".to_string(), hm(12, 30)).unwrap();
    day.end_day_at(hm(17, 0), false).unwrap();
    day
}

#[test]
fn test_full_day_times() {
    let day = full_day();
    assert!(day.has_ended());
    assert_eq!(day.get_day_length_secs(), Some(8 * 3600));
    assert_eq!(day.get_total_break_time_secs(), Some(30 * 60));
    assert_eq!(day.get_time_done_secs(), Some(8 * 3600 - 30 * 60));
    assert_eq!(day.get_time_to_do_secs(), 8 * 3600);
    assert_eq!(day.get_time_left_secs(), Some(30 * 60));
    assert_eq!(day.get_number_of_breaks(), Some(1));
}

#[test]
fn test_full_day_task_totals() {
    let day = full_day();
    assert_eq!(day.get_total_timeblocks(), 4);
    assert_eq!(day.get_total_break_timeblocks(), 1);
    assert_eq!(day.get_total_timeblocks_without_breaks(), 3);
    let names = day.get_tasks_in_chronological_order();
    assert_eq!(names, vec!["Write".to_string(), "Review".to_string(), "Lunch".to_string()]);
    let totals = day.get_task_times_secs_and_num_blocks();
    let lookup = |name: &str| -> (i64, u64) {
        totals.iter().find(|e| e.0 == name).map(|e| e.1).unwrap()
    };
    assert_eq!(lookup("Write"), (3600, 1));
    assert_eq!(lookup("Review"), (2 * 3600 + 4 * 3600 + 30 * 60, 2));
    assert_eq!(lookup("Lunch"), (30 * 60, 1));
    // The per-task block counts sum to the number of blocks; leaving the
    // break blocks out, to the number of non-break blocks.
    let count_sum: u64 = totals.iter().map(|e| e.1 .1).sum();
    assert_eq!(count_sum, day.get_total_timeblocks());
    assert_eq!(
        count_sum - day.get_total_break_timeblocks(),
        day.get_total_timeblocks_without_breaks()
    );
}

#[test]
fn test_break_totals_are_undefined_mid_break() {
    let mut day = Day::new(hm(9, 0), "Write".to_string(), 480, None);
    day.start_break_at("Lunch".to_string(), hm(12, 0)).unwrap();
    assert!(day.on_break);
    assert_eq!(day.get_total_break_time_secs(), None);
    assert_eq!(day.get_number_of_breaks(), None);
    assert_eq!(day.get_time_done_secs(), None);
}

#[test]
fn test_break_then_end_closes_break_at_day_end() {
    let mut day = Day::new(hm(9, 0), "Write".to_string(), 480, None);
    day.start_break_at("Lunch".to_string(), hm(12, 0)).unwrap();
    day.end_day_at(hm(12, 45), false).unwrap();
    assert!(!day.on_break);
    let break_block = &day.timeblocks[*day.breaks.last().unwrap()];
    assert_eq!(break_block.get_end().map(|d| d.0), Some(hm(12, 45).0));
    assert_eq!(day.get_day_end().map(|d| d.0), Some(hm(12, 45).0));
}

#[test]
fn test_wrong_state_transitions_are_refused() {
    let mut day = Day::new(hm(9, 0), "Write".to_string(), 480, None);
    assert_eq!(day.restart_day("B".to_string(), "T".to_string(), hm(10, 0)), Err(DayError::DayNotEnded));
    day.start_break_at("Lunch".to_string(), hm(12, 0)).unwrap();
    assert_eq!(
        day.start_break_at("Coffee".to_string(), hm(12, 10)),
        Err(DayError::AlreadyOnBreak)
    );
    assert_eq!(day.update_current_task_name("X".to_string()), Err(DayError::OnBreak));
    day.end_day_at(hm(17, 0), false).unwrap();
    assert_eq!(day.end_day_at(hm(18, 0), false), Err(DayError::DayAlreadyEnded));
    assert_eq!(
        day.start_new_block("More".to_string(), hm(18, 0)),
        Err(DayError::DayAlreadyEnded)
    );
    assert_eq!(
        day.start_break_at("Late".to_string(), hm(18, 0)),
        Err(DayError::DayAlreadyEnded)
    );
    assert_eq!(
        day.update_current_task_name("Renamed".to_string()),
        Err(DayError::DayAlreadyEnded)
    );
    assert_eq!(day.get_latest_task_name(), "Lunch");
}

#[test]
fn test_rename_moves_task_index() {
    let mut day = Day::new(hm(9, 0), "Write".to_string(), 480, None);
    day.start_new_block("Draft".to_string(), hm(10, 0)).unwrap();
    day.update_current_task_name("Write".to_string()).unwrap();
    assert_eq!(day.get_latest_task_name(), "Write");
    let totals = day.get_task_times_secs_and_num_blocks();
    assert_eq!(totals.len(), 1);
    assert_eq!(totals[0].0, "Write");
    assert_eq!(totals[0].1 .1, 2);
}

#[test]
fn test_end_day_with_lock_overwrites_target() {
    let mut day = Day::new(Dt(0), "Write".to_string(), 480, None);
    day.end_day_at(Dt(125), true).unwrap();
    assert_eq!(day.time_to_do, 2);
    assert_eq!(day.time_to_do_seconds_in_addition, Some(5));
    assert_eq!(day.get_time_to_do_secs(), 125);
    assert_eq!(day.get_time_left_secs(), Some(0));
}

#[test]
fn test_end_day_with_lock_while_on_break() {
    // The open break closes at the day's end first, so the locked target is
    // the time worked with the whole break excluded.
    let mut day = Day::new(hm(9, 0), "Write".to_string(), 480, None);
    day.start_break_at("Lunch".to_string(), hm(12, 0)).unwrap();
    day.end_day_at(hm(12, 45), true).unwrap();
    assert!(!day.on_break);
    assert_eq!(day.get_total_break_time_secs(), Some(45 * 60));
    assert_eq!(day.get_time_done_secs(), Some(3 * 3600));
    assert_eq!(day.get_time_to_do_secs(), 3 * 3600);
    assert_eq!(day.get_time_left_secs(), Some(0));
}

#[test]
fn test_restart_day_reopens_with_gap_break() {
    let mut day = full_day();
    let time_left_before = day.restart_day("Break".to_string(), "Evening".to_string(), hm(18, 0)).unwrap();
    assert_eq!(time_left_before, 30 * 60);
    assert!(!day.has_ended());
    assert_eq!(day.get_latest_task_name(), "Evening");
    assert_eq!(day.get_total_timeblocks(), 6);
    assert_eq!(day.get_total_break_timeblocks(), 2);
    // The gap between the old punch-out and the new punch-in is a break.
    let gap = &day.timeblocks[4];
    assert_eq!(gap.get_task_name(), "Break");
    assert_eq!(gap.get_start().0, hm(17, 0).0);
    assert_eq!(gap.get_end().map(|d| d.0), Some(hm(18, 0).0));
    // Re-close the day: the gap does not count as time worked.
    day.end_day_at(hm(19, 0), false).unwrap();
    assert_eq!(day.get_time_done_secs(), Some(10 * 3600 - 30 * 60 - 3600));
}

#[test]
fn test_notes_and_summaries_append() {
    let mut day = Day::new(hm(9, 0), "Write".to_string(), 480, None);
    day.add_note(hm(9, 5), &"first thought".to_string());
    day.add_note(hm(9, 6), &"second thought".to_string());
    assert_eq!(day.timeblocks[0].notes.len(), 2);
    assert_eq!(day.timeblocks[0].notes[1].msg, "second thought");
    day.add_summary(
        "cat".to_string(),
        "proj".to_string(),
        "task".to_string(),
        "did things".to_string(),
    );
    assert_eq!(day.summaries.len(), 1);
    assert_eq!(day.summaries[0].category, "cat");
}

#[test]
fn test_get_task_name_counts_from_the_back() {
    let mut day = Day::new(hm(9, 0), "Write".to_string(), 480, None);
    day.start_new_block("Review".to_string(), hm(10, 0)).unwrap();
    assert_eq!(day.get_task_name(0), "Write");
    assert_eq!(day.get_task_name(1), "Review");
    assert_eq!(day.get_task_name(-1), "Review");
    assert_eq!(day.get_task_name(-2), "Write");
}

fn short_day(task: &str, start_h: i64, hours: i64, target_mins: u64) -> Day {
    let mut day = Day::new(hm(start_h, 0), task.to_string(), target_mins, None);
    day.end_day_at(hm(start_h + hours, 0), false).unwrap();
    day
}

#[test]
fn test_aggregate_rejects_open_day() {
    let mut agg = AggregateDay::new(0);
    let day = Day::new(hm(9, 0), "Write".to_string(), 480, None);
    assert_eq!(agg.add_day(day), Err(DayError::DayNotEnded));
    assert_eq!(agg.num_days, 0);
}

#[test]
fn test_aggregate_totals() {
    let mut agg = AggregateDay::new(600);
    agg.add_day(full_day()).unwrap();
    agg.add_day(short_day("Write", 8, 2, 120)).unwrap();
    assert_eq!(agg.num_days, 2);
    assert_eq!(agg.total_time, (8 * 3600 + 2 * 3600) as u64);
    assert_eq!(agg.total_break_time, 30 * 60);
    assert_eq!(agg.num_breaks, 1);
    assert_eq!(agg.total_time_to_do, (480 * 60 + 120 * 60) as u64);
    assert_eq!(agg.get_total_time_done(), (10 * 3600 - 30 * 60) as u64);
    assert_eq!(agg.get_total_blocks(), 5);
    assert_eq!(agg.get_total_non_break_blocks(), 4);
    // time behind over the period: targets minus time worked.
    assert_eq!(agg.get_time_behind_over_period(), (600 * 60) - (10 * 3600 - 30 * 60));
    assert_eq!(agg.get_time_behind_overall(), (600 * 60) - (10 * 3600 - 30 * 60) + 600);
}

#[test]
fn test_aggregate_order_does_not_matter() {
    let d1 = full_day();
    let d2 = short_day("Write", 8, 2, 120);
    let mut a = AggregateDay::new(0);
    a.add_day(d1.clone()).unwrap();
    a.add_day(d2.clone()).unwrap();
    let mut b = AggregateDay::new(0);
    b.add_day(d2).unwrap();
    b.add_day(d1).unwrap();
    assert_eq!(a.total_time, b.total_time);
    assert_eq!(a.total_break_time, b.total_break_time);
    assert_eq!(a.num_breaks, b.num_breaks);
    assert_eq!(a.total_time_to_do, b.total_time_to_do);
    assert_eq!(a.num_days, b.num_days);
    assert_eq!(a.get_total_blocks(), b.get_total_blocks());
    assert_eq!(a.task_totals.len(), b.task_totals.len());
    for entry in &a.task_totals {
        let other = b.task_totals.iter().find(|e| e.name == entry.name).unwrap();
        assert_eq!((entry.secs, entry.blocks), (other.secs, other.blocks));
    }
}

#[test]
fn test_ledger_applies_delta_in_seconds() {
    let mut config = Config::new(480, "Start".to_string(), "Break".to_string(), 10, Some(30), Some(true));
    assert_eq!(config.get_seconds_behind(), 630);
    // A day ended ahead of schedule by ten minutes feeds the ledger.
    config.update_time_behind(-600);
    assert_eq!(config.get_seconds_behind(), 30);
    // Negative totals round-trip too.
    config.update_time_behind(-90);
    assert_eq!(config.get_seconds_behind(), -60);
    assert_eq!(config.minutes_behind, -1);
    assert_eq!(config.seconds_behind_in_addition, Some(0));
}

#[test]
fn test_ledger_reversal_on_restart() {
    // A day ended with 1800 seconds still owed, and the ledger took it in.
    let mut day = short_day("Write", 9, 8, 510);
    assert_eq!(day.get_time_left_secs(), Some(1800));
    let mut config = Config::new(480, "Start".to_string(), "Break".to_string(), 0, Some(0), None);
    config.update_time_behind(day.get_time_left_secs().unwrap());
    assert_eq!(config.get_seconds_behind(), 1800);
    // Punching back in returns what the ledger must reverse.
    let time_left_before = day.restart_day("Break".to_string(), "More".to_string(), hm(18, 0)).unwrap();
    assert_eq!(time_left_before, 1800);
    config.update_time_behind(-time_left_before);
    assert_eq!(config.get_seconds_behind(), 0);
    // Re-close the day and apply its own fresh contribution.
    day.end_day_at(hm(19, 0), false).unwrap();
    let fresh = day.get_time_left_secs().unwrap();
    assert_eq!(fresh, 510 * 60 - (10 * 3600 - 3600));
    config.update_time_behind(fresh);
    assert_eq!(config.get_seconds_behind(), fresh);
}

#[test]
fn test_interval_from_the_clock() {
    let mut iv = Interval::new_now();
    assert!(!iv.has_end());
    assert!(iv.end_now().is_ok());
    assert!(iv.get_length_secs().is_some());
    assert!(iv.end_now().is_err());
}

#[test]
fn test_day_length_in_minutes_truncates_toward_zero() {
    let mut day = Day::new(Dt(0), "Write".to_string(), 480, None);
    assert_eq!(day.get_day_length_mins(), None);
    day.end_day_at(Dt(119), false).unwrap();
    assert_eq!(day.get_day_length_mins(), Some(1));
}

#[test]
fn test_extra_target_seconds_count() {
    let day = Day::new(Dt(0), "Write".to_string(), 2, Some(30));
    assert_eq!(day.get_time_to_do_secs(), 150);
}

#[test]
fn test_config_defaults_to_vim_editor() {
    let config = Config::new(480, "Start".to_string(), "Break".to_string(), -7, None, None);
    assert_eq!(config.editor_path(), Some(&"vim".to_string()));
    assert_eq!(config.minutes_behind_non_neg, 0);
    assert_eq!(config.get_seconds_behind(), -420);
}

#[test]
fn test_config_minutes_behind_update() {
    let mut config = Config::new(480, "Start".to_string(), "Break".to_string(), 10, Some(0), None);
    config.update_minutes_behind(-4);
    assert_eq!(config.minutes_behind, 6);
    assert_eq!(config.minutes_behind_non_neg, 0);
    assert_eq!(config.show_times_in_hours_or_default(), true);
    assert_eq!(config.day_in_minutes(), 480);
    assert_eq!(config.get_default_punch_in_task(), "Start");
    assert_eq!(config.get_default_break_task(), "Break");
}
