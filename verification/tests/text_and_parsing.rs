use std::collections::HashSet;

use punch_card::Day;
use punch_card::AggregateDay;
use punch_card::Dt;
use punch_card::convert_input::convert_input_to_seconds;
use punch_card::generate_random_string::generate_random_string;
use punch_card::human_readable;
use punch_card::interval::MAX_TIMESTAMP_SECS;
use punch_card::interval::dt_now;
use punch_card::misc;
use punch_card::render_list_for_user::render_list_for_user;

#[test]
fn test_errors_for_bad_string() {
    let out = convert_input_to_seconds("abc");
    assert!(out.is_err());
}

#[test]
fn test_produces_different_outputs() {
    // This might fail randomly but the chances are very small
    let num_tries: usize = 1000;
    let fail_if_less: usize = 995;
    let str_length: usize = 50;

    let unique_strings: HashSet<String> = HashSet::from_iter(
        (0..num_tries).into_iter().map(|_x| generate_random_string(str_length)),
    );
    assert!(unique_strings.len() >= fail_if_less);
}

#[test]
fn test_random_string_length() {
    for len in [0usize, 1, 3, 10] {
        assert_eq!(generate_random_string(len).chars().count(), len);
    }
}

#[test]
fn test_random_string_is_ascii_alphanumeric() {
    let s = generate_random_string(200);
    assert!(s.chars().all(|c| c.is_ascii_alphanumeric()));
}

#[test]
fn test_now_is_a_valid_timestamp() {
    let now = dt_now();
    assert!(now.0.abs() <= MAX_TIMESTAMP_SECS);
    // A sanity floor: we are well past the year 2020.
    assert!(now.0 > 1_577_836_800);
}

#[test]
fn test_convert_plain_integers() {
    assert_eq!(convert_input_to_seconds("0").unwrap(), 0);
    assert_eq!(convert_input_to_seconds("-23").unwrap(), -23);
    assert_eq!(convert_input_to_seconds("63").unwrap(), 63);
    assert_eq!(convert_input_to_seconds("9223372036854775807").unwrap(), i64::MAX);
    assert_eq!(convert_input_to_seconds("-9223372036854775808").unwrap(), i64::MIN);
}

#[test]
fn test_convert_suffixed_forms() {
    assert_eq!(convert_input_to_seconds("0s").unwrap(), 0);
    assert_eq!(convert_input_to_seconds("-23s").unwrap(), -23);
    assert_eq!(convert_input_to_seconds("-1m23s").unwrap(), -83);
    assert_eq!(convert_input_to_seconds("-0m23s").unwrap(), -23);
    assert_eq!(convert_input_to_seconds("2m63s").unwrap(), 183);
    assert_eq!(convert_input_to_seconds("1m3s").unwrap(), 63);
    assert_eq!(convert_input_to_seconds("0h1m23s").unwrap(), 83);
    assert_eq!(convert_input_to_seconds("1h2m63s").unwrap(), 3783);
    assert_eq!(convert_input_to_seconds("3h0m63s").unwrap(), 10863);
    assert_eq!(convert_input_to_seconds("-1h1m23s").unwrap(), -3683);
    assert_eq!(convert_input_to_seconds("-2h0m23s").unwrap(), -7223);
    assert_eq!(convert_input_to_seconds("2h1m0s").unwrap(), 7260);
    assert_eq!(convert_input_to_seconds("2H1M0S").unwrap(), 7260);
    assert_eq!(convert_input_to_seconds("1h2s").unwrap(), 3602);
}

#[test]
fn test_convert_rejects_malformed_input() {
    assert!(convert_input_to_seconds("").is_err());
    assert!(convert_input_to_seconds("1h2m").is_err());
    assert!(convert_input_to_seconds("5s3m").is_err());
    assert!(convert_input_to_seconds("h1s").is_err());
    assert!(convert_input_to_seconds("1h 2s").is_err());
    assert!(convert_input_to_seconds("12x").is_err());
    assert!(convert_input_to_seconds("99999999999999999999").is_err());
    assert!(convert_input_to_seconds("9999999999999999999h0s").is_err());
}

#[test]
fn test_render_seconds_compact() {
    assert_eq!(misc::render_seconds_human_readable(0, true), "0s");
    assert_eq!(misc::render_seconds_human_readable(-45, true), "-45s");
    assert_eq!(misc::render_seconds_human_readable(63, true), "1m 3s");
    assert_eq!(misc::render_seconds_human_readable(3725, true), "1h 2m 5s");
    assert_eq!(misc::render_seconds_human_readable(3725, false), "62m 5s");
    // The compact form drops the minutes part when nothing is left of it.
    assert_eq!(misc::render_seconds_human_readable(7205, true), "2h 5s");
    assert_eq!(misc::render_seconds_human_readable(-3683, true), "-1h 1m 23s");
}

#[test]
fn test_render_seconds_with_all_units() {
    assert_eq!(human_readable::render_seconds_human_readable(0, true), "0s");
    assert_eq!(human_readable::render_seconds_human_readable(-19, false), "-19s");
    assert_eq!(human_readable::render_seconds_human_readable(63, true), "1m 3s");
    assert_eq!(human_readable::render_seconds_human_readable(3725, true), "1h 2m 5s");
    assert_eq!(human_readable::render_seconds_human_readable(3725, false), "62m 5s");
    // Every unit is written out even when the minutes part is zero.
    assert_eq!(human_readable::render_seconds_human_readable(7205, true), "2h 0m 5s");
    assert_eq!(human_readable::render_seconds_human_readable(-7205, false), "-120m 5s");
}

#[test]
fn test_render_list_shows_up_to_the_cap() {
    let empty: Vec<String> = Vec::new();
    assert_eq!(render_list_for_user(&empty, None), "None");
    assert_eq!(render_list_for_user(&empty, Some(3)), "None");
    let items: Vec<String> = vec!["a".to_string(), "b".to_string(), "c".to_string()];
    assert_eq!(render_list_for_user(&items, Some(0)), "None");
    assert_eq!(render_list_for_user(&items, None), "a, b, c");
    assert_eq!(render_list_for_user(&items, Some(3)), "a, b, c");
    assert_eq!(render_list_for_user(&items, Some(2)), "a, b, ...");
    let six: Vec<String> = (1..=6).map(|i| i.to_string()).collect();
    assert_eq!(render_list_for_user(&six, None), "1, 2, 3, 4, 5, ...");
}

#[test]
fn test_day_summary_text() {
    let mut day = Day::new(Dt(0), "Solo".to_string(), 1, None);
    day.end_day_at(Dt(65), false).unwrap();
    let text = day.render_human_readable_summary(None, true).unwrap();
    assert_eq!(
        text,
        "Total time (from punch in to punch out): 1m 5s\
         \nTime done today: 1m 5s\
         \nTime spent on break: 0s\
         \n\
         \nTotal task blocks (including breaks): 1\
         \nTotal task blocks (excluding breaks): 1\
         \nNumber of breaks: 0\
         \n\
         \nLatest task: 'Solo'\
         \nTask times, blocks:\
         \n\tSolo: 1m 5s, 1 blocks\
         \n\
         \nTime to do today: 1m 0s\
         \nTime left to do today: -5s"
    );
}

#[test]
fn test_day_summary_includes_ledger_when_given() {
    let mut day = Day::new(Dt(0), "Solo".to_string(), 1, None);
    day.end_day_at(Dt(65), false).unwrap();
    let text = day.render_human_readable_summary(Some(600), true).unwrap();
    assert!(text.ends_with("\nTime behind overall: 9m 55s"));
}

#[test]
fn test_day_summary_refused_while_open() {
    let day = Day::new(Dt(0), "Solo".to_string(), 1, None);
    let err = day.render_human_readable_summary(None, true).unwrap_err();
    assert_eq!(err, "Can't summarise a day before it has ended!");
}

#[test]
fn test_aggregate_summary_text_when_empty() {
    let agg = AggregateDay::new(0);
    let text = agg.render_human_readable_summary(false, true).unwrap();
    assert_eq!(
        text,
        "Num days summarised: 0\
         \nTotal work time (including breaks): 0s\
         \nTotal time working (excluding breaks): 0s\
         \nTotal time spent on break: 0s\
         \n\
         \nTotal task blocks (including breaks): 0\
         \nTotal task blocks (excluding breaks): 0\
         \nTotal breaks: 0\
         \n\
         \nTask times, blocks:\
         \n\
         \nTime to do over period: 0s\
         \nTime behind over period: 0s"
    );
}

#[test]
fn test_aggregate_summary_lists_tasks_and_overall_ledger() {
    let mut day = Day::new(Dt(0), "Solo".to_string(), 1, None);
    day.end_day_at(Dt(65), false).unwrap();
    let mut agg = AggregateDay::new(120);
    agg.add_day(day).unwrap();
    let text = agg.render_human_readable_summary(true, true).unwrap();
    assert!(text.contains("\nTask times, blocks:\n\tSolo: 1m 5s, 1 blocks\n"));
    assert!(text.contains("\nTime behind over period: -5s"));
    assert!(text.ends_with("\nTime behind overall: 1m 55s"));
}
