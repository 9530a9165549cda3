use minit::{Filter, MinitApp, Priority, Stamp, Suggestion, Task};

fn stamp(secs: i64) -> Stamp {
    Stamp { secs, nanos: 0 }
}

fn task(id: u128, priority: Priority, minutes: u32, created: i64) -> Task {
    Task::new_at(format!("task {}", id), priority, minutes, id, stamp(created))
}

fn sample() -> MinitApp {
    let mut app = MinitApp::new(vec![
        task(1, Priority::Low, 10, 0),
        task(2, Priority::High, 25, 1),
        task(3, Priority::Medium, 60, 2),
        task(4, Priority::High, 5, 3),
    ]);
    app.available_minutes = 30;
    app
}

#[test]
fn toggling_twice_restores_the_task() {
    let mut app = sample();
    app.toggle_task_at(3, stamp(10));
    app.toggle_task_at(3, stamp(20));
    assert!(!app.tasks[2].done);
    assert_eq!(app.tasks[2].completed_at, None);
    assert_eq!(app.tasks[2].title, "task 3");
}

#[test]
fn deleted_id_is_gone_and_others_stay() {
    let mut app = sample();
    app.delete_task(2);
    assert!(app.task_by_id(2).is_none());
    assert!(app.task_by_id(1).is_some());
    assert!(app.task_by_id(4).is_some());
    app.delete_task(2);
    assert_eq!(app.tasks.len(), 3);
}

#[test]
fn cleared_list_shows_nothing_completed() {
    let mut app = sample();
    app.toggle_task_at(1, stamp(10));
    app.toggle_task_at(4, stamp(10));
    app.filter = Filter::Active;
    let active: Vec<u128> = app.visible_tasks().iter().map(|t| t.id).collect();
    app.clear_completed();
    let kept: Vec<u128> = app.tasks.iter().map(|t| t.id).collect();
    assert_eq!(kept, active);
    app.filter = Filter::Completed;
    assert!(app.visible_tasks().is_empty());
}

#[test]
fn active_and_completed_partition_the_list() {
    let mut app = sample();
    app.toggle_task_at(2, stamp(10));
    app.filter = Filter::All;
    assert_eq!(app.visible_tasks().len(), 4);
    app.filter = Filter::Active;
    let active = app.visible_tasks().len();
    app.filter = Filter::Completed;
    let completed = app.visible_tasks().len();
    assert_eq!(active + completed, 4);
    assert_eq!(active, app.remaining_count());
}

#[test]
fn suggestion_names_an_open_fitting_task() {
    let app = sample();
    match app.suggest_at(stamp(100)) {
        Suggestion::Fits(id) => {
            let t = app.task_by_id(id).unwrap();
            assert!(!t.done);
            assert!(t.estimated_minutes <= 30);
            assert_eq!(t.priority, Priority::High);
            assert_eq!(id, 2);
        }
        _ => panic!("expected a fitting task"),
    }
}

#[test]
fn skipped_task_is_not_suggested_right_away() {
    let mut app = sample();
    assert_eq!(app.suggest_at(stamp(100)), Suggestion::Fits(2));
    assert!(app.skip_task_at(2, stamp(100)));
    let next = app.suggest_at(stamp(100));
    assert_ne!(next, Suggestion::Fits(2));
    assert_eq!(next, Suggestion::Fits(4));
}

#[test]
fn clearing_completed_keeps_the_suggestion() {
    let mut app = sample();
    app.toggle_task_at(1, stamp(10));
    app.toggle_task_at(3, stamp(10));
    let before = app.suggest_at(stamp(100));
    app.clear_completed();
    assert_eq!(app.suggest_at(stamp(100)), before);
}

#[test]
fn deleting_another_task_keeps_the_suggestion() {
    let mut app = sample();
    let before = app.suggest_at(stamp(100));
    assert_eq!(before, Suggestion::Fits(2));
    app.delete_task(4);
    app.delete_task(3);
    assert_eq!(app.suggest_at(stamp(100)), before);
}

#[test]
fn finished_task_is_not_suggested() {
    let mut app = sample();
    assert_eq!(app.suggest_at(stamp(100)), Suggestion::Fits(2));
    app.toggle_task_at(2, stamp(100));
    let next = app.suggest_at(stamp(100));
    assert_ne!(next, Suggestion::Fits(2));
    assert_eq!(next, Suggestion::Fits(4));
}

#[test]
fn tasks_stay_tidy() {
    let mut app = MinitApp::new(vec![]);
    app.new_task_text = "  Stretch  ".to_string();
    app.new_task_minutes = 0;
    assert!(app.add_task_at(1, stamp(0)));
    app.begin_edit(1, "Stretch".to_string());
    app.edit_buffer = "\tStretch more\n".to_string();
    assert!(app.commit_edit(1));
    app.toggle_task_at(1, stamp(5));
    for t in &app.tasks {
        assert_eq!(t.title, t.title.trim());
        assert!(!t.title.is_empty());
        assert!(t.estimated_minutes >= 1);
    }
}
