use minit::{Filter, MinitApp, Preferences, Priority, Stamp, Suggestion, Task};

fn stamp(secs: i64) -> Stamp {
    Stamp { secs, nanos: 0 }
}

fn task(id: u128, priority: Priority, minutes: u32, created: i64) -> Task {
    Task::new_at(format!("task {}", id), priority, minutes, id, stamp(created))
}

fn ids(app: &MinitApp) -> Vec<u128> {
    app.tasks.iter().map(|t| t.id).collect()
}

fn app_with(tasks: Vec<Task>, available: u32) -> MinitApp {
    let mut app = MinitApp::new(tasks);
    app.available_minutes = available;
    app
}

#[test]
fn new_app_defaults() {
    let app = MinitApp::new(vec![task(1, Priority::Low, 5, 0)]);
    assert_eq!(ids(&app), vec![1]);
    assert_eq!(app.new_task_text, "");
    assert_eq!(app.new_task_priority, Priority::Medium);
    assert_eq!(app.new_task_minutes, 15);
    assert_eq!(app.available_minutes, 15);
    assert_eq!(app.filter, Filter::All);
    assert_eq!(app.editing_id, None);
    assert_eq!(app.edit_buffer, "");
}

#[test]
fn add_task_trims_and_clears() {
    let mut app = MinitApp::new(vec![]);
    app.new_task_text = "  Water plants \t".to_string();
    app.new_task_priority = Priority::High;
    app.new_task_minutes = 10;
    assert!(app.add_task_at(42, stamp(100)));
    assert_eq!(app.tasks.len(), 1);
    let t = &app.tasks[0];
    assert_eq!(t.id, 42);
    assert_eq!(t.title, "Water plants");
    assert_eq!(t.priority, Priority::High);
    assert_eq!(t.estimated_minutes, 10);
    assert_eq!(t.created_at, stamp(100));
    assert!(!t.done);
    assert_eq!(app.new_task_text, "");
}

#[test]
fn add_task_gives_at_least_one_minute() {
    let mut app = MinitApp::new(vec![]);
    app.new_task_text = "Quick".to_string();
    app.new_task_minutes = 0;
    assert!(app.add_task_at(1, stamp(0)));
    assert_eq!(app.tasks[0].estimated_minutes, 1);
}

#[test]
fn add_task_ignores_blank_text() {
    let mut app = MinitApp::new(vec![]);
    app.new_task_text = " \n\t ".to_string();
    assert!(!app.add_task_at(1, stamp(0)));
    assert!(app.tasks.is_empty());
    assert_eq!(app.new_task_text, " \n\t ");
}

#[test]
fn add_task_with_fresh_identity() {
    let mut app = MinitApp::new(vec![]);
    app.new_task_text = "Read".to_string();
    assert!(app.add_task());
    app.new_task_text = "Write".to_string();
    assert!(app.add_task());
    assert_eq!(app.tasks.len(), 2);
    assert_ne!(app.tasks[0].id, app.tasks[1].id);
    assert_eq!(app.tasks[1].title, "Write");
    assert_eq!(app.tasks[1].id >> 76 & 0xF, 4);
}

#[test]
fn toggle_marks_and_unmarks_completion() {
    let mut app = MinitApp::new(vec![task(1, Priority::Low, 5, 0), task(2, Priority::Low, 5, 1)]);
    app.toggle_task_at(2, stamp(50));
    assert!(app.tasks[1].done);
    assert_eq!(app.tasks[1].completed_at, Some(stamp(50)));
    assert!(!app.tasks[0].done);
    app.toggle_task_at(2, stamp(60));
    assert!(!app.tasks[1].done);
    assert_eq!(app.tasks[1].completed_at, None);
}

#[test]
fn toggle_acts_on_first_match_only() {
    let mut app = MinitApp::new(vec![task(7, Priority::Low, 5, 0), task(7, Priority::Low, 5, 1)]);
    app.toggle_task(7);
    assert!(app.tasks[0].done);
    assert!(app.tasks[0].completed_at.is_some());
    assert!(!app.tasks[1].done);
}

#[test]
fn toggle_unknown_id_changes_nothing() {
    let mut app = MinitApp::new(vec![task(1, Priority::Low, 5, 0)]);
    app.toggle_task_at(9, stamp(5));
    assert!(!app.tasks[0].done);
    assert_eq!(app.tasks[0].completed_at, None);
}

#[test]
fn skip_lasts_for_the_free_minutes() {
    let mut app = app_with(vec![task(1, Priority::Low, 5, 0)], 15);
    let now = Stamp { secs: 1_700_000_000, nanos: 250 };
    assert!(app.skip_task_at(1, now));
    assert_eq!(app.tasks[0].skipped_until, Some(Stamp { secs: 1_700_000_900, nanos: 250 }));
}

#[test]
fn skip_out_of_range_changes_nothing() {
    let mut app = app_with(vec![task(1, Priority::Low, 5, 0)], 15);
    assert!(!app.skip_task_at(1, Stamp { secs: i64::MAX, nanos: 0 }));
    assert_eq!(app.tasks[0].skipped_until, None);
}

#[test]
fn skip_until_and_skip_now() {
    let mut app = app_with(vec![task(1, Priority::Low, 5, 0), task(2, Priority::Low, 5, 0)], 15);
    app.skip_task_until(2, stamp(99));
    assert_eq!(app.tasks[1].skipped_until, Some(stamp(99)));
    assert_eq!(app.tasks[0].skipped_until, None);
    app.skip_task(1);
    assert!(app.tasks[0].skipped_until.is_some());
}

#[test]
fn delete_removes_every_match() {
    let mut app = MinitApp::new(vec![
        task(1, Priority::Low, 5, 0),
        task(2, Priority::Low, 5, 1),
        task(1, Priority::High, 5, 2),
        task(3, Priority::Low, 5, 3),
    ]);
    app.delete_task(1);
    assert_eq!(ids(&app), vec![2, 3]);
    app.delete_task(4);
    assert_eq!(ids(&app), vec![2, 3]);
}

#[test]
fn clear_completed_keeps_open_tasks_in_order() {
    let mut app = MinitApp::new(vec![
        task(1, Priority::Low, 5, 0),
        task(2, Priority::Low, 5, 1),
        task(3, Priority::Low, 5, 2),
        task(4, Priority::Low, 5, 3),
    ]);
    app.toggle_task_at(1, stamp(10));
    app.toggle_task_at(3, stamp(10));
    assert_eq!(app.remaining_count(), 2);
    app.clear_completed();
    assert_eq!(ids(&app), vec![2, 4]);
    assert_eq!(app.remaining_count(), 2);
}

#[test]
fn visible_tasks_follow_the_filter() {
    let mut app = MinitApp::new(vec![
        task(1, Priority::Low, 5, 0),
        task(2, Priority::Low, 5, 1),
        task(3, Priority::Low, 5, 2),
    ]);
    app.toggle_task_at(2, stamp(10));
    let shown = |app: &MinitApp| app.visible_tasks().iter().map(|t| t.id).collect::<Vec<_>>();
    assert_eq!(shown(&app), vec![1, 2, 3]);
    app.filter = Filter::Active;
    assert_eq!(shown(&app), vec![1, 3]);
    app.filter = Filter::Completed;
    assert_eq!(shown(&app), vec![2]);
}

#[test]
fn task_by_id_finds_first() {
    let app = MinitApp::new(vec![
        task(1, Priority::Low, 5, 0),
        task(2, Priority::High, 5, 1),
        task(2, Priority::Low, 5, 2),
    ]);
    assert_eq!(app.task_by_id(2).map(|t| t.priority), Some(Priority::High));
    assert!(app.task_by_id(9).is_none());
}

#[test]
fn editing_renames_the_task() {
    let mut app = MinitApp::new(vec![task(1, Priority::Low, 5, 0), task(2, Priority::Low, 5, 1)]);
    app.begin_edit(2, "task 2".to_string());
    assert_eq!(app.editing_id, Some(2));
    assert_eq!(app.edit_buffer, "task 2");
    app.edit_buffer = "  Call mum  ".to_string();
    assert!(app.commit_edit(2));
    assert_eq!(app.editing_id, None);
    assert_eq!(app.tasks[1].title, "Call mum");
    assert_eq!(app.tasks[0].title, "task 1");
}

#[test]
fn editing_to_blank_keeps_the_title() {
    let mut app = MinitApp::new(vec![task(1, Priority::Low, 5, 0)]);
    app.begin_edit(1, "task 1".to_string());
    app.edit_buffer = "   ".to_string();
    assert!(!app.commit_edit(1));
    assert_eq!(app.editing_id, None);
    assert_eq!(app.tasks[0].title, "task 1");
}

#[test]
fn cancel_edit_stops_editing() {
    let mut app = MinitApp::new(vec![task(1, Priority::Low, 5, 0)]);
    app.begin_edit(1, "task 1".to_string());
    app.edit_buffer = "Other".to_string();
    app.cancel_edit();
    assert_eq!(app.editing_id, None);
    assert_eq!(app.tasks[0].title, "task 1");
}

#[test]
fn suggest_with_no_open_tasks() {
    let app = app_with(vec![], 30);
    assert_eq!(app.suggest_at(stamp(0)), Suggestion::NoTasks);
    let mut app = app_with(vec![task(1, Priority::High, 5, 0)], 30);
    app.toggle_task_at(1, stamp(1));
    assert_eq!(app.suggest_at(stamp(2)), Suggestion::NoTasks);
    assert_eq!(app.suggest(), Suggestion::NoTasks);
}

#[test]
fn suggest_prefers_priority_then_longest_fit_then_oldest() {
    let app = app_with(
        vec![
            task(1, Priority::Medium, 10, 0),
            task(2, Priority::High, 5, 5),
            task(3, Priority::High, 20, 9),
            task(4, Priority::High, 20, 3),
            task(5, Priority::High, 45, 1),
        ],
        30,
    );
    // task 5 does not fit; among the high ones that fit, 20 minutes leaves the
    // least time over, and task 4 is older than task 3
    assert_eq!(app.suggest_at(stamp(100)), Suggestion::Fits(4));
}

#[test]
fn suggest_ties_go_to_the_earlier_task() {
    let app = app_with(vec![task(8, Priority::Low, 10, 5), task(9, Priority::Low, 10, 5)], 30);
    assert_eq!(app.suggest_at(stamp(100)), Suggestion::Fits(8));
}

#[test]
fn suggest_falls_back_to_shortest() {
    let app = app_with(
        vec![
            task(1, Priority::High, 90, 0),
            task(2, Priority::Low, 40, 7),
            task(3, Priority::Low, 40, 2),
        ],
        30,
    );
    assert_eq!(app.suggest_at(stamp(100)), Suggestion::Fallback(3));
}

#[test]
fn suggest_skips_and_returns_after_the_skip() {
    let mut app = app_with(vec![task(1, Priority::High, 20, 0), task(2, Priority::Low, 5, 1)], 30);
    app.skip_task_until(1, stamp(200));
    assert_eq!(app.suggest_at(stamp(100)), Suggestion::Fits(2));
    assert_eq!(app.suggest_at(stamp(200)), Suggestion::Fits(1));
}

#[test]
fn suggest_when_every_fit_is_skipped() {
    let mut app = app_with(
        vec![
            task(1, Priority::High, 20, 0),
            task(2, Priority::Low, 5, 1),
            task(3, Priority::Low, 50, 2),
        ],
        30,
    );
    app.skip_task_until(1, stamp(500));
    app.skip_task_until(2, stamp(500));
    assert_eq!(app.suggest_at(stamp(100)), Suggestion::FitsSkipped(2));
}

#[test]
fn preferences_survive_a_restart() {
    let mut app = MinitApp::new(vec![task(1, Priority::Low, 5, 0)]);
    assert_eq!(app.preferences(), Preferences::standard());
    app.available_minutes = 45;
    app.new_task_minutes = 25;
    app.new_task_priority = Priority::High;
    app.filter = Filter::Completed;
    let saved = app.preferences();
    assert_eq!(
        saved,
        Preferences {
            available_minutes: 45,
            new_task_minutes: 25,
            new_task_priority: Priority::High,
            filter: Filter::Completed,
        }
    );
    let restored = MinitApp::with_preferences(vec![task(1, Priority::Low, 5, 0)], saved);
    assert_eq!(restored.preferences(), saved);
    assert_eq!(restored.available_minutes, 45);
    assert_eq!(restored.new_task_text, "");
    assert_eq!(restored.editing_id, None);
}

#[test]
fn standard_preferences() {
    let p = Preferences::standard();
    assert_eq!(p.available_minutes, 15);
    assert_eq!(p.new_task_minutes, 15);
    assert_eq!(p.new_task_priority, Priority::Medium);
    assert_eq!(p.filter, Filter::All);
}

#[test]
fn add_task_trims_unicode_whitespace() {
    let mut app = MinitApp::new(vec![]);
    app.new_task_text = "\u{3000}\u{a0} Tea \u{2029}".to_string();
    assert!(app.add_task_at(3, stamp(0)));
    assert_eq!(app.tasks[0].title, "Tea");
    app.new_task_text = "\u{2003}\u{85}".to_string();
    assert!(!app.add_task_at(4, stamp(0)));
    assert_eq!(app.tasks.len(), 1);
}

#[test]
fn skip_out_of_a_leap_second() {
    let mut app = app_with(vec![task(1, Priority::Low, 5, 0)], 1);
    // 2016-12-31T23:59:60.5Z
    let now = Stamp { secs: 1_483_228_799, nanos: 1_500_000_000 };
    assert!(app.skip_task_at(1, now));
    assert_eq!(app.tasks[0].skipped_until, Some(Stamp { secs: 1_483_228_859, nanos: 500_000_000 }));
}

#[test]
fn skip_for_no_free_time_keeps_the_instant() {
    let mut app = app_with(vec![task(1, Priority::Low, 5, 0)], 0);
    let now = Stamp { secs: 1_483_228_799, nanos: 1_500_000_000 };
    assert!(app.skip_task_at(1, now));
    assert_eq!(app.tasks[0].skipped_until, Some(now));
}

#[test]
fn new_tasks_get_a_current_time() {
    let mut app = MinitApp::new(vec![]);
    app.new_task_text = "Now".to_string();
    assert!(app.add_task());
    let created = app.tasks[0].created_at;
    assert!(created.secs > 1_600_000_000);
    assert!(created.nanos < 1_000_000_000);
}
