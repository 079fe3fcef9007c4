use todo_lib::date::Date;
use todo_lib::terr::TodoError;
use todo_lib::timer;
use todo_lib::todo;
use todo_lib::todotxt::{
    extract_contexts, extract_hashtags, extract_projects, extract_tags, CompletionConfig, CompletionDateMode,
    CompletionMode, Recurrence, Task,
};

fn ymd(y: i32, m: u32, d: u32) -> Date {
    Date::from_ymd_opt(y, m, d).unwrap()
}

fn just_mark() -> CompletionConfig {
    CompletionConfig {
        completion_mode: CompletionMode::JustMark,
        completion_date_mode: CompletionDateMode::WhenCreationDateIsPresent,
    }
}

fn assert_synced(t: &Task) {
    assert_eq!(t.projects, extract_projects(&t.subject));
    assert_eq!(t.contexts, extract_contexts(&t.subject));
    assert_eq!(t.hashtags, extract_hashtags(&t.subject));
    assert_eq!(t.tags, extract_tags(&t.subject));
}

#[test]
fn round_trip_of_formatted_tasks() {
    let base = ymd(2020, 3, 15);
    let lines = [
        "x (E) 2020-02-03 2020-01-03 just text",
        "(A) 2020-01-01 call +family @home due:2020-04-01 rec:+1w #weekly",
        "x 2020-02-03 done without creation date",
        "plain text t:2020-05-05 until:2021-01-01",
    ];
    for l in lines.iter() {
        let t = Task::parse(l, base);
        assert_eq!(&t.to_string(), l);
        let again = Task::parse(&t.to_string(), ymd(2023, 7, 7));
        assert_eq!(again, t, "{}", l);
    }
}

#[test]
fn first_scenario_parse() {
    let t = Task::parse("x (E) 2020-02-03 2020-01-03 just text", ymd(2020, 3, 15));
    assert!(t.finished);
    assert_eq!(t.priority, 4);
    assert_eq!(t.finish_date, Some(ymd(2020, 2, 3)));
    assert_eq!(t.create_date, Some(ymd(2020, 1, 3)));
    assert_eq!(t.subject, "just text");
}

#[test]
fn relative_tags_are_resolved() {
    let t = Task::parse("task rec:2w due:2d t:1m", ymd(2020, 3, 15));
    assert_eq!(t.due_date, Some(ymd(2020, 3, 17)));
    assert_eq!(t.threshold_date, Some(ymd(2020, 4, 15)));
    assert_eq!(t.recurrence, Some(Recurrence::parse("2w").unwrap()));
    assert_eq!(t.subject, "task rec:2w due:2020-03-17 t:2020-04-15");
}

#[test]
fn subject_and_fields_stay_in_step() {
    let today = ymd(2021, 1, 5);
    let mut t = Task::parse("call +Family @home game:on #tag due:2021-02-01", today);
    assert_synced(&t);
    t.update_tag_with_value("game", "off", today);
    assert_synced(&t);
    t.update_tag_with_value("due", "2021-03-01", today);
    assert_eq!(t.due_date, Some(ymd(2021, 3, 1)));
    assert_synced(&t);
    t.update_tag_with_value("due", "", today);
    assert_eq!(t.due_date, None);
    assert_synced(&t);
    t.replace_project("family", "work");
    assert_eq!(t.subject, "call +work @home game:off #tag");
    assert_synced(&t);
    t.replace_context("", "office");
    assert_synced(&t);
    t.replace_context("HOME", "");
    assert_eq!(t.subject, "call +work game:off #tag @office");
    assert_synced(&t);
}

#[test]
fn completing_twice_changes_nothing() {
    let base = ymd(2020, 2, 2);
    let mut t = Task::parse("(B) 2020-01-01 testc", base);
    assert!(t.complete_with_config(base, just_mark()));
    let before = t.clone();
    assert!(!t.complete_with_config(ymd(2020, 3, 3), just_mark()));
    assert_eq!(t, before);
    assert!(t.uncomplete(CompletionMode::JustMark));
    let open = t.clone();
    assert!(!t.uncomplete(CompletionMode::PriorityToTag));
    assert_eq!(t, open);
}

#[test]
fn recurring_task_spawns_one_successor() {
    let today = ymd(2020, 2, 2);
    let mut tasks = vec![Task::parse("test rec:+1m due:2020-03-01", today)];
    let changed = todo::done(&mut tasks, None, just_mark(), today, 1_580_601_600);
    assert_eq!(changed, vec![true]);
    assert_eq!(tasks.len(), 2);
    assert_eq!(tasks[0].to_string(), "x test rec:+1m due:2020-03-01");
    assert_eq!(tasks[1].to_string(), "test rec:+1m due:2020-04-01");
}

#[test]
fn recurring_task_past_until_spawns_nothing() {
    let today = ymd(2020, 2, 2);
    let mut tasks = vec![Task::parse("test rec:+1m due:2020-03-01 until:2020-03-15", today)];
    let changed = todo::done(&mut tasks, None, just_mark(), today, 1_580_601_600);
    assert_eq!(changed, vec![true]);
    assert_eq!(tasks.len(), 1);
    let mut tasks = vec![Task::parse("test rec:+1m due:2020-03-01 until:2020-05-15", today)];
    todo::done(&mut tasks, None, just_mark(), today, 1_580_601_600);
    assert_eq!(tasks.len(), 2);
}

#[test]
fn lax_recurrence_counts_from_today() {
    let today = ymd(2020, 2, 2);
    let mut tasks = vec![Task::parse("test rec:1m due:2020-03-01", today)];
    todo::done(&mut tasks, None, just_mark(), today, 1_580_601_600);
    assert_eq!(tasks.len(), 2);
    assert_eq!(tasks[1].due_date, Some(ymd(2020, 3, 2)));
}

#[test]
fn strict_recurrence_catches_up() {
    let today = ymd(2020, 6, 10);
    let mut t = Task::parse("pay rec:+1m due:2020-03-31", today);
    assert!(t.next_dates(today));
    assert_eq!(t.due_date, Some(ymd(2020, 6, 30)));
    assert_eq!(t.subject, "pay rec:+1m due:2020-06-30");
}

#[test]
fn month_end_is_kept() {
    let rec = Recurrence::parse("1m").unwrap();
    assert_eq!(rec.next_date(ymd(2020, 1, 31)), Some(ymd(2020, 2, 29)));
    assert_eq!(rec.next_date(ymd(2020, 2, 29)), Some(ymd(2020, 3, 31)));
    assert_eq!(rec.next_date(ymd(2020, 3, 15)), Some(ymd(2020, 4, 15)));
    let year = Recurrence::parse("+1y").unwrap();
    assert_eq!(year.next_date(ymd(2020, 2, 29)), Some(ymd(2021, 2, 28)));
    assert_eq!(year.next_date(ymd(9999, 1, 1)), None);
}

#[test]
fn business_days_skip_weekends() {
    let b = Recurrence::parse("3b").unwrap();
    assert_eq!(b.next_date(ymd(2024, 2, 15)), Some(ymd(2024, 2, 20)));
    assert_eq!(b.next_date(ymd(2024, 2, 17)), Some(ymd(2024, 2, 21)));
}

#[test]
fn recurrence_counts_are_bounded() {
    assert!(Recurrence::parse("0d").is_err());
    assert!(Recurrence::parse("256d").is_err());
    assert_eq!(Recurrence::parse("255d").unwrap().count, 255);
    assert!(Recurrence::parse("+2b").unwrap().strict);
}

#[test]
fn dates_and_days() {
    assert_eq!(Date::from_ymd_opt(2021, 2, 29), None);
    assert_eq!(Date::from_ymd_opt(2024, 2, 29), Some(Date { year: 2024, month: 2, day: 29 }));
    assert_eq!(Date::from_ymd_opt(10000, 1, 1), None);
    assert_eq!(ymd(1, 1, 1).day_number(), 1);
    assert_eq!(ymd(2020, 1, 1).add_days(366), Some(ymd(2021, 1, 1)));
    assert_eq!(ymd(2020, 3, 1).add_days(-1), Some(ymd(2020, 2, 29)));
    assert_eq!(ymd(9999, 12, 31).add_days(1), None);
    assert_eq!(ymd(1, 1, 1).add_days(-1), None);
    assert_eq!(ymd(2024, 2, 17).weekday(), 5);
    assert_eq!(ymd(1, 1, 1).weekday(), 0);
    assert!(ymd(2020, 1, 31).is_before(&ymd(2020, 2, 1)));
    assert!(!ymd(2020, 2, 1).is_before(&ymd(2020, 2, 1)));
}

#[test]
fn timer_start_and_stop() {
    let today = ymd(2020, 1, 1);
    let mut tasks = vec![Task::parse("write report spent:100", today), Task::parse("x done already", today)];
    let started = todo::start(&mut tasks, None, today, 1000);
    assert_eq!(started, vec![true, false]);
    assert_eq!(tasks[0].subject, "write report spent:100 tmr:1000");
    assert!(timer::is_timer_on(&tasks[0]));
    assert_eq!(timer::spent_time(&tasks[0], 1600), 700);
    let again = todo::start(&mut tasks, Some(&vec![0]), today, 1200);
    assert_eq!(again, vec![false]);
    let stopped = todo::stop(&mut tasks, None, today, 1600);
    assert_eq!(stopped, vec![true, false]);
    assert_eq!(tasks[0].subject, "write report spent:700 tmr:off");
    assert!(!timer::is_timer_on(&tasks[0]));
    assert_eq!(timer::spent_time(&tasks[0], 5000), 700);
}

#[test]
fn add_rejects_missing_or_empty_subject() {
    let today = ymd(2020, 1, 1);
    let mut tasks: todo::TaskVec = Vec::new();
    let mut c = todo::Conf::default();
    assert_eq!(todo::add(&mut tasks, &c, today), todo::INVALID_ID);
    c.subject = Some(String::new());
    assert_eq!(todo::add(&mut tasks, &c, today), todo::INVALID_ID);
    c.subject = Some("new one".to_string());
    c.auto_create_date = true;
    assert_eq!(todo::add(&mut tasks, &c, today), 0);
    assert_eq!(tasks[0].create_date, Some(today));
}

#[test]
fn empty_lists_give_empty_results() {
    let today = ymd(2020, 1, 1);
    let mut tasks: todo::TaskVec = Vec::new();
    assert!(todo::remove(&mut tasks, Some(&vec![0, 1])).is_empty());
    assert!(todo::done(&mut tasks, None, just_mark(), today, 0).is_empty());
    assert!(todo::edit(&mut tasks, None, &todo::Conf::default(), today).is_empty());
    assert!(todo_lib::tfilter::filter(&tasks, &todo_lib::tfilter::Conf::default(), today).is_empty());
}

#[test]
fn edit_replaces_first_subject_only() {
    let today = ymd(2020, 1, 1);
    let mut tasks = vec![Task::parse("2019-05-05 old one", today), Task::parse("other", today)];
    let mut c = todo::Conf::default();
    c.subject = Some("new text +p".to_string());
    c.priority = todo::PriorityTagChange { action: todo::Action::SetValue, value: 0 };
    let changed = todo::edit(&mut tasks, Some(&vec![9, 0, 1]), &c, today);
    assert_eq!(changed, vec![false, true, false]);
    assert_eq!(tasks[0].to_string(), "2019-05-05 new text +p");
    assert_eq!(tasks[1].to_string(), "other");
}

#[test]
fn edit_priorities() {
    let today = ymd(2020, 1, 1);
    let mut tasks = vec![Task::parse("(A) a", today), Task::parse("(Z) z", today), Task::parse("none", today)];
    let mut c = todo::Conf::default();
    c.priority = todo::PriorityTagChange { action: todo::Action::Increase, value: 0 };
    assert_eq!(todo::edit(&mut tasks, None, &c, today), vec![false, true, false]);
    c.priority = todo::PriorityTagChange { action: todo::Action::Decrease, value: 0 };
    assert_eq!(todo::edit(&mut tasks, None, &c, today), vec![true, true, false]);
    assert_eq!(tasks[0].to_string(), "(B) a");
    assert_eq!(tasks[1].to_string(), "(Z) z");
    c.priority = todo::PriorityTagChange { action: todo::Action::Delete, value: 0 };
    assert_eq!(todo::edit(&mut tasks, None, &c, today), vec![true, true, false]);
    assert_eq!(tasks[1].to_string(), "z");
}

#[test]
fn edit_recurrence_reopens_finished_task() {
    let today = ymd(2020, 1, 1);
    let mut tasks = vec![Task::parse("x 2019-12-30 water plants", today)];
    let mut c = todo::Conf::default();
    c.recurrence = todo::RecurrencyTagChange { action: todo::Action::SetValue, value: Some(Recurrence::parse("+1w").unwrap()) };
    assert_eq!(todo::edit(&mut tasks, None, &c, today), vec![true]);
    assert_eq!(tasks[0].to_string(), "water plants rec:+1w");
    c.recurrence = todo::RecurrencyTagChange { action: todo::Action::Delete, value: None };
    assert_eq!(todo::edit(&mut tasks, None, &c, today), vec![true]);
    assert_eq!(tasks[0].to_string(), "water plants");
}

#[test]
fn stored_text_round_trip() {
    let today = ymd(2020, 1, 1);
    let text = "(A) first +p\r\nx 2019-12-31 second\n\nthird due:2020-02-02\n";
    let tasks = todo::parse_tasks(text, today);
    assert_eq!(tasks.len(), 4);
    assert_eq!(tasks[0].subject, "first +p");
    assert_eq!(tasks[2].subject, "");
    let out = todo::format_tasks(&tasks);
    assert_eq!(out, "(A) first +p\nx 2019-12-31 second\n\nthird due:2020-02-02\n");
}

#[test]
fn error_messages() {
    assert_eq!(TodoError::InvalidValue("x".to_string(), "pri".to_string()).message(), "invalid value x for pri");
    assert_eq!(TodoError::SaveFailed.message(), "failed to save todo list");
    assert_eq!(TodoError::LoadFailed.message(), "failed to load todo list");
    assert_eq!(TodoError::AppendFailed.message(), "failed to append to file");
    assert_eq!(TodoError::FileWriteFailed.message(), "failed to write todo list");
    assert_eq!(TodoError::NotCommand.message(), "first argument must be a command");
    assert_eq!(TodoError::IOError("disk".to_string()).message(), "I/O Error: disk");
}

#[test]
fn filter_dates_against_today() {
    let today = ymd(2020, 1, 10);
    let tasks = vec![
        Task::parse("a due:2020-01-09", today),
        Task::parse("b due:2020-01-12", today),
        Task::parse("c", today),
        Task::parse("d t:2020-02-01", today),
    ];
    let mut c = todo_lib::tfilter::Conf::default();
    c.due = Some(todo_lib::tfilter::DateRange {
        days: todo_lib::tfilter::ValueRange { low: 0, high: 3 },
        span: todo_lib::tfilter::ValueSpan::Range,
    });
    assert_eq!(todo_lib::tfilter::filter(&tasks, &c, today), vec![1]);
    c.due = Some(todo_lib::tfilter::DateRange {
        days: todo_lib::tfilter::ValueRange { low: 1, high: todo_lib::tfilter::INCLUDE_NONE },
        span: todo_lib::tfilter::ValueSpan::Lower,
    });
    assert_eq!(todo_lib::tfilter::filter(&tasks, &c, today), vec![0, 2]);
    c.due = None;
    c.all = todo_lib::tfilter::TodoStatus::Active;
    assert_eq!(todo_lib::tfilter::filter(&tasks, &c, today), vec![0, 1, 2]);
    c.regex = Some("(".to_string());
    c.use_regex = true;
    assert_eq!(todo_lib::tfilter::filter(&tasks, &c, today), vec![0, 1, 2]);
}

#[test]
fn timer_values_are_signed() {
    let today = ymd(2020, 1, 1);
    let mut tasks = vec![Task::parse("old clock tmr:-5 spent:-2", today)];
    assert_eq!(timer::spent_time(&tasks[0], 10), 13);
    let stopped = todo::stop(&mut tasks, None, today, 10);
    assert_eq!(stopped, vec![true]);
    assert_eq!(tasks[0].subject, "old clock tmr:off spent:13");
    let mut early = vec![Task::parse("later start", today)];
    todo::start(&mut early, None, today, -30);
    assert_eq!(early[0].subject, "later start tmr:-30");
}

#[test]
fn open_date_range_matches_any_date() {
    let today = ymd(2020, 1, 10);
    let tasks = vec![Task::parse("a due:2020-01-09", today), Task::parse("b", today), Task::parse("c due:2030-01-01", today)];
    let mut c = todo_lib::tfilter::Conf::default();
    c.due = Some(todo_lib::tfilter::DateRange {
        days: todo_lib::tfilter::ValueRange {
            low: todo_lib::tfilter::INCLUDE_NONE,
            high: todo_lib::tfilter::INCLUDE_NONE,
        },
        span: todo_lib::tfilter::ValueSpan::Range,
    });
    assert_eq!(todo_lib::tfilter::filter(&tasks, &c, today), vec![0, 1, 2]);
}

#[test]
fn lowercase_entry_points() {
    let base = ymd(2020, 10, 12);
    let t = Task::parse("feed cat thr:2020-10-10", base);
    assert_eq!(todo_lib::date_expr::calculate_lowered_expr(base, "thr+1d", &t, 0), Ok(ymd(2020, 10, 11)));
    assert!(todo_lib::date_expr::calculate_lowered_expr(base, "THR+1d", &t, 0).is_err());
    let keys = todo_lib::tsort::parse_lowered_fields("proj,done:due");
    assert_eq!(keys, vec!["proj".to_string(), "done".to_string(), "due".to_string()]);
    let tasks = vec![
        Task::parse("a +b rec:1w due:2020-01-01", base),
        Task::parse("x done +b", base),
        Task::parse("c +b", base),
        Task::parse("d +a", base),
    ];
    let mut ids = vec![0, 1, 2, 3];
    todo_lib::tsort::sort_by_fields(&mut ids, &tasks, &keys, false);
    assert_eq!(ids, vec![3, 2, 0, 1]);
    let mut ids = vec![0, 1, 2, 3];
    todo_lib::tsort::sort_by_fields(&mut ids, &tasks, &keys, true);
    assert_eq!(ids, vec![1, 0, 2, 3]);
}
