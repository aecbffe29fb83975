use chrono::{DateTime, Local, NaiveDate, TimeZone};

use todo_ron_cli::{parse_index_list, Cli, Commands, Outcome, RepeatStatus, Stamp, TodoItem, TodoList};
use todo_ron_cli::item::status_from;
use todo_ron_cli::list::{ascending_unique, descending_unique};
use todo_ron_cli::stamp::{nanos_until, whole_secs_of};

fn stamp_of(t: DateTime<Local>) -> Stamp {
    Stamp::new(t.timestamp(), t.timestamp_subsec_nanos(), t.offset().local_minus_utc()).unwrap()
}

fn local(y: i32, mo: u32, d: u32, h: u32, mi: u32, s: u32) -> Stamp {
    stamp_of(Local.with_ymd_and_hms(y, mo, d, h, mi, s).unwrap())
}

fn done(text: &str, at: Stamp, repeat: Option<i64>) -> TodoItem {
    let mut item = TodoItem::new(text.to_string(), repeat);
    item.mark_complete(at);
    item
}

fn list_of(texts: &[&str]) -> TodoList {
    let mut list = TodoList::default();
    for t in texts {
        list.add(t.to_string(), None);
    }
    list
}

fn texts(list: &TodoList) -> Vec<String> {
    list.items.iter().map(|i| i.text.clone()).collect()
}

#[test]
fn due_exactly_from_local_midnight_of_due_day() {
    let item = done("Repeat test", local(2026, 1, 1, 13, 0, 0), Some(2));
    assert!(item.should_reset(local(2026, 1, 3, 0, 0, 0)));
    assert!(!item.should_reset(local(2026, 1, 2, 23, 59, 59)));
}

#[test]
fn next_due_start_ignores_time_of_day() {
    let early = done("a", local(2026, 3, 10, 0, 30, 0), Some(4));
    let late = done("b", local(2026, 3, 10, 23, 30, 0), Some(4));
    let a = early.next_due_start().unwrap();
    let b = late.next_due_start().unwrap();
    assert_eq!(a, b);
    let at = Local.timestamp_opt(a.secs, a.nanos).unwrap();
    assert_eq!(at.date_naive(), NaiveDate::from_ymd_opt(2026, 3, 14).unwrap());
    assert_eq!(at.naive_local().time(), chrono::NaiveTime::MIN);
}

#[test]
fn next_due_start_needs_date_and_interval() {
    let no_repeat = done("a", local(2026, 3, 10, 8, 0, 0), None);
    assert!(no_repeat.next_due_start().is_none());
    let never_done = TodoItem::new("b".to_string(), Some(1));
    assert!(never_done.next_due_start().is_none());
}

#[test]
fn zero_interval_is_due_the_same_day() {
    let item = done("a", local(2026, 5, 5, 18, 0, 0), Some(0));
    assert!(item.should_reset(local(2026, 5, 5, 18, 0, 1)));
}

#[test]
fn task_without_interval_never_due_or_reset() {
    let at = local(2020, 1, 1, 9, 0, 0);
    let mut item = done("One-off", at, None);
    assert!(!item.should_reset(local(2030, 1, 1, 0, 0, 0)));
    item.reset_if_due(local(2030, 1, 1, 0, 0, 0));
    assert!(item.complete);
    assert_eq!(item.complete_date, Some(at));
    assert_eq!(item.repeat_days, None);
    assert_eq!(item.text, "One-off");
}

#[test]
fn incomplete_task_is_never_due() {
    let item = TodoItem::new("a".to_string(), Some(1));
    assert!(!item.should_reset(local(2030, 1, 1, 0, 0, 0)));
    assert_eq!(item.time_until_next_repeat(local(2030, 1, 1, 0, 0, 0)), None);
}

#[test]
fn reset_twice_equals_reset_once() {
    let now = local(2026, 2, 1, 12, 0, 0);
    for at in [local(2026, 1, 20, 10, 0, 0), local(2026, 1, 31, 10, 0, 0)] {
        let mut once = done("x", at, Some(3));
        once.reset_if_due(now);
        let mut twice = once.clone();
        twice.reset_if_due(now);
        assert_eq!(once.complete, twice.complete);
        assert_eq!(once.complete_date, twice.complete_date);
        assert_eq!(once.repeat_days, twice.repeat_days);
        assert_eq!(once.text, twice.text);
    }
}

#[test]
fn stamp_new_rejects_out_of_range_fields() {
    assert!(Stamp::new(0, 1_000_000_000, 0).is_none());
    assert!(Stamp::new(0, 0, 86_400).is_none());
    assert!(Stamp::new(0, 0, -86_400).is_none());
    assert!(Stamp::new(i64::MAX, 0, 0).is_none());
    assert_eq!(Stamp::new(5, 7, -3600), Some(Stamp { secs: 5, nanos: 7, offset: -3600 }));
}

#[test]
fn local_day_floors_before_the_epoch() {
    assert_eq!(Stamp::new(0, 0, 0).unwrap().day(), 0);
    assert_eq!(Stamp::new(-1, 0, 0).unwrap().day(), -1);
    assert_eq!(Stamp::new(0, 0, -3600).unwrap().day(), -1);
    assert_eq!(Stamp::new(86_399, 0, 3600).unwrap().day(), 1);
    assert_eq!(Stamp::new(-86_400, 0, 0).unwrap().day(), -1);
}

#[test]
fn due_day_number_adds_interval_to_local_day() {
    let mut item = TodoItem::new("a".to_string(), Some(2));
    item.mark_complete(Stamp::new(86_400 * 10 + 5, 0, 0).unwrap());
    assert_eq!(item.due_day_number(), Some(12));
    item.repeat_days = Some(i64::MAX);
    assert_eq!(item.due_day_number(), None);
    item.repeat_days = None;
    assert_eq!(item.due_day_number(), None);
}

#[test]
fn nanos_until_is_exact() {
    let due = Stamp::new(100, 0, 0).unwrap();
    assert_eq!(nanos_until(&due, &Stamp::new(40, 500_000_000, 0).unwrap()), 59_500_000_000);
    assert_eq!(nanos_until(&due, &Stamp::new(100, 500_000_000, 0).unwrap()), -500_000_000);
    assert_eq!(nanos_until(&due, &Stamp::new(101, 500_000_000, 0).unwrap()), -1_500_000_000);
    assert_eq!(nanos_until(&due, &Stamp::new(100, 0, 0).unwrap()), 0);
}

#[test]
fn whole_secs_round_toward_zero() {
    assert_eq!(whole_secs_of(59_500_000_000), 59);
    assert_eq!(whole_secs_of(-500_000_000), 0);
    assert_eq!(whole_secs_of(-1_500_000_000), -1);
    assert_eq!(whole_secs_of(i128::MIN), i128::MIN / 1_000_000_000);
}

#[test]
fn time_left_keeps_sub_second_part() {
    let item = done("a", local(2026, 1, 1, 13, 0, 0), Some(2));
    let due = item.next_due_start().unwrap();
    let before = Stamp::new(due.secs - 1, 500_000_000, due.offset).unwrap();
    let after = Stamp::new(due.secs, 500_000_000, due.offset).unwrap();
    assert_eq!(item.time_until_next_repeat(before), Some(500_000_000));
    assert!(!item.should_reset(before));
    assert_eq!(item.time_until_next_repeat(after), Some(-500_000_000));
    assert!(item.should_reset(after));
}

#[test]
fn status_from_covers_every_case() {
    let s = 1_000_000_000i128;
    assert_eq!(status_from(Some(1), Some(0)), RepeatStatus::DueToday);
    assert_eq!(status_from(Some(1), Some(-86_399 * s)), RepeatStatus::DueToday);
    assert_eq!(status_from(Some(1), Some(-86_400 * s)), RepeatStatus::OverdueDays(1));
    assert_eq!(status_from(Some(1), Some(-86_400 * s + 1)), RepeatStatus::DueToday);
    assert_eq!(status_from(Some(1), Some((-3 * 86_400 - 5) * s)), RepeatStatus::OverdueDays(3));
    assert_eq!(status_from(Some(1), Some(3600 * s)), RepeatStatus::DueToday);
    assert_eq!(status_from(Some(1), Some(86_400 * s - 1)), RepeatStatus::DueToday);
    assert_eq!(status_from(Some(1), Some(90_000 * s)), RepeatStatus::DueIn { days: 1, hours: 1 });
    assert_eq!(
        status_from(Some(1), Some((2 * 86_400 + 5 * 3600 + 59) * s + 7)),
        RepeatStatus::DueIn { days: 2, hours: 5 }
    );
    assert_eq!(
        status_from(Some(1), Some(i128::MIN)),
        RepeatStatus::OverdueDays(i128::MIN / s / -86_400)
    );
    assert_eq!(status_from(Some(1), None), RepeatStatus::NoCompletionDate);
    assert_eq!(status_from(None, None), RepeatStatus::NoRepeat);
}

#[test]
fn repeat_status_of_completed_tasks() {
    let item = done("a", local(2026, 1, 1, 13, 0, 0), Some(2));
    assert_eq!(item.repeat_status(local(2026, 1, 1, 13, 0, 0)), RepeatStatus::DueIn { days: 1, hours: 11 });
    assert_eq!(item.repeat_status(local(2026, 1, 2, 12, 0, 0)), RepeatStatus::DueToday);
    assert_eq!(item.repeat_status(local(2026, 1, 5, 12, 0, 0)), RepeatStatus::OverdueDays(2));
    let plain = done("b", local(2026, 1, 1, 13, 0, 0), None);
    assert_eq!(plain.repeat_status(local(2026, 1, 5, 12, 0, 0)), RepeatStatus::NoRepeat);
    assert_eq!(
        item.time_until_next_repeat(local(2026, 1, 2, 23, 0, 0)),
        Some(3600 * 1_000_000_000)
    );
}

#[test]
fn parse_skips_bad_pieces_entirely() {
    assert_eq!(parse_index_list(""), Vec::<usize>::new());
    assert_eq!(parse_index_list("a,3"), vec![3]);
    assert_eq!(parse_index_list("2-x,4"), vec![4]);
    assert_eq!(parse_index_list("1-2-3,6"), vec![6]);
    assert_eq!(parse_index_list("-5"), Vec::<usize>::new());
    assert_eq!(parse_index_list("+5"), vec![5]);
    assert_eq!(parse_index_list("+"), Vec::<usize>::new());
    assert_eq!(parse_index_list("18446744073709551616,1"), vec![1]);
    assert_eq!(parse_index_list("18446744073709551615"), vec![usize::MAX]);
}

#[test]
fn parse_trims_unicode_space_and_keeps_duplicates() {
    assert_eq!(parse_index_list(" 3 - 1 "), vec![1, 2, 3]);
    assert_eq!(parse_index_list("\u{3000}7\t,\n2"), vec![7, 2]);
    assert_eq!(parse_index_list("2,2,1-2"), vec![2, 2, 1, 2]);
    assert_eq!(parse_index_list("4-4"), vec![4]);
}

#[test]
fn unique_orders() {
    assert_eq!(ascending_unique(&vec![3, 1, 3, 0]), vec![0, 1, 3]);
    assert_eq!(descending_unique(&vec![3, 1, 3, 0]), vec![3, 1, 0]);
    assert_eq!(ascending_unique(&vec![]), Vec::<usize>::new());
}

#[test]
fn delete_removes_original_positions() {
    let mut list = list_of(&["a", "b", "c", "d", "e"]);
    let report = list.delete_indexes(&parse_index_list("1,3"));
    assert_eq!(texts(&list), vec!["a", "c", "e"]);
    let order: Vec<usize> = report.iter().map(|p| p.0).collect();
    assert_eq!(order, vec![3, 1]);
    assert_eq!(report[0].1.as_ref().unwrap().text, "d");
    assert_eq!(report[1].1.as_ref().unwrap().text, "b");
}

#[test]
fn delete_skips_missing_positions() {
    let mut list = list_of(&["a", "b", "c"]);
    let report = list.delete_indexes(&vec![9, 1, 1]);
    assert_eq!(texts(&list), vec!["a", "c"]);
    assert_eq!(report.len(), 2);
    assert_eq!(report[0].0, 9);
    assert!(report[0].1.is_none());
    assert_eq!(report[1].0, 1);
}

#[test]
fn complete_marks_each_named_task() {
    let mut list = list_of(&["a", "b", "c"]);
    let now = local(2026, 4, 4, 4, 4, 4);
    let report = list.complete_indexes(&vec![2, 0, 2, 7], now);
    assert_eq!(report, vec![(0, true), (2, true), (7, false)]);
    assert!(list.items[0].complete && list.items[2].complete && !list.items[1].complete);
    assert_eq!(list.items[0].complete_date, Some(now));
    assert_eq!(list.positions(false), vec![1]);
    assert_eq!(list.positions(true), vec![0, 2]);
}

#[test]
fn auto_reset_touches_only_due_tasks() {
    let mut list = TodoList::default();
    list.items.push(done("due", local(2026, 1, 1, 8, 0, 0), Some(1)));
    list.items.push(done("later", local(2026, 1, 1, 8, 0, 0), Some(30)));
    list.items.push(done("once", local(2026, 1, 1, 8, 0, 0), None));
    list.auto_reset_repeating(local(2026, 1, 10, 0, 0, 0));
    assert!(!list.items[0].complete && list.items[0].complete_date.is_none());
    assert!(list.items[1].complete);
    assert!(list.items[2].complete);
}

#[test]
fn undo_and_edit_by_index() {
    let mut list = list_of(&["a", "b"]);
    list.complete_indexes(&vec![1], local(2026, 1, 1, 0, 0, 0));
    assert!(list.undo_at(1));
    assert!(!list.items[1].complete && list.items[1].complete_date.is_none());
    assert!(!list.undo_at(2));
    assert!(list.edit_at(0, Some("z".to_string()), Some(3), false));
    assert_eq!(list.items[0].text, "z");
    assert_eq!(list.items[0].repeat_days, Some(3));
    assert!(list.edit_at(0, None, Some(5), true));
    assert_eq!(list.items[0].repeat_days, None);
    assert_eq!(list.items[0].text, "z");
    assert!(!list.edit_at(5, None, None, false));
}

#[test]
fn apply_runs_commands() {
    let now = local(2026, 6, 1, 12, 0, 0);
    let mut list = TodoList::default();
    let out = list.apply(Commands::Add { text: "a".to_string(), repeat: Some(2) }, now);
    assert!(matches!(out, Outcome::Added) && out.needs_save());
    list.apply(Commands::Add { text: "b".to_string(), repeat: None }, now);
    assert_eq!(list.items[0].repeat_days, Some(2));

    let out = list.apply(Commands::Complete { indexes: "x, ,".to_string() }, now);
    assert!(matches!(out, Outcome::NoValidIndexes) && !out.needs_save());

    let out = list.apply(Commands::Complete { indexes: "5".to_string() }, now);
    assert!(matches!(out, Outcome::Completed(_)) && !out.needs_save());
    let out = list.apply(Commands::Complete { indexes: "1-0".to_string() }, now);
    assert!(out.needs_save());
    assert!(list.items[0].complete && list.items[1].complete);

    let out = list.apply(Commands::Delete { indexes: "0,4".to_string(), confirm: false }, now);
    match &out {
        Outcome::DeletePreview(p) => assert_eq!(p, &vec![(4, None), (0, Some("a".to_string()))]),
        _ => panic!("expected a preview"),
    }
    assert!(!out.needs_save());
    assert_eq!(list.items.len(), 2);

    let out = list.apply(Commands::Delete { indexes: "0".to_string(), confirm: true }, now);
    assert!(out.needs_save());
    assert_eq!(texts(&list), vec!["b"]);

    let out = list.apply(Commands::Undo { index: 3 }, now);
    assert!(matches!(out, Outcome::Undone { index: 3, found: false }) && !out.needs_save());
    let out = list.apply(Commands::Edit { index: 0, text: None, repeat: Some(1), clear_repeat: false }, now);
    assert!(matches!(out, Outcome::Edited { index: 0, found: true }) && out.needs_save());
    assert!(matches!(list.apply(Commands::List, now), Outcome::Listed));
    assert!(matches!(list.apply(Commands::Commands, now), Outcome::ShowCommands));
}

#[test]
fn cli_defaults_to_list() {
    assert!(matches!(Cli { file: None, command: None }.chosen(), Commands::List));
    let cli = Cli { file: Some("x".to_string()), command: Some(Commands::Undo { index: 2 }) };
    assert!(matches!(cli.chosen(), Commands::Undo { index: 2 }));
}

#[test]
fn reset_with_due_follows_the_given_due_moment() {
    let at = local(2026, 1, 1, 13, 0, 0);
    let due = local(2026, 1, 3, 0, 0, 0);
    let mut item = done("a", at, Some(2));
    item.reset_with_due(Some(due), local(2026, 1, 2, 23, 59, 59));
    assert!(item.complete && item.complete_date == Some(at));
    item.reset_with_due(None, local(2026, 2, 1, 0, 0, 0));
    assert!(item.complete);
    item.reset_with_due(Some(due), due);
    assert!(!item.complete && item.complete_date.is_none());
    assert_eq!(item.text, "a");
    assert_eq!(item.repeat_days, Some(2));
}
