use minit::planner::{minutes_unit, plural_suffix};
use minit::stamp::add_minutes;
use minit::{new_id, Filter, Priority, Rgb, Stamp, Task};

fn stamp(secs: i64, nanos: u32) -> Stamp {
    Stamp { secs, nanos }
}

#[test]
fn priority_labels() {
    assert_eq!(Priority::Low.label(), "Low");
    assert_eq!(Priority::Medium.label(), "Medium");
    assert_eq!(Priority::High.label(), "High");
}

#[test]
fn priority_colors() {
    assert_eq!(Priority::Low.color(), Rgb { r: 96, g: 165, b: 250 });
    assert_eq!(Priority::Medium.color(), Rgb { r: 250, g: 204, b: 21 });
    assert_eq!(Priority::High.color(), Rgb { r: 248, g: 113, b: 113 });
}

#[test]
fn priority_order_and_rank() {
    assert!(Priority::Low < Priority::Medium);
    assert!(Priority::Medium < Priority::High);
    assert_eq!(Priority::Low.rank(), 0);
    assert_eq!(Priority::Medium.rank(), 1);
    assert_eq!(Priority::High.rank(), 2);
}

#[test]
fn stamp_order() {
    assert!(stamp(10, 0).is_before(&stamp(11, 0)));
    assert!(stamp(10, 5).is_before(&stamp(10, 6)));
    assert!(!stamp(10, 6).is_before(&stamp(10, 6)));
    assert!(stamp(10, 6).is_not_after(&stamp(10, 6)));
    assert!(!stamp(11, 0).is_not_after(&stamp(10, 999_999_999)));
    // a leap second's nanoseconds run past one second but stay before the next second
    assert!(stamp(59, 1_500_000_000).is_before(&stamp(60, 0)));
}

#[test]
fn new_task_is_open_and_unskipped() {
    let t = Task::new("Laundry".to_string(), Priority::High, 40);
    assert_eq!(t.title, "Laundry");
    assert!(!t.done);
    assert_eq!(t.priority, Priority::High);
    assert_eq!(t.estimated_minutes, 40);
    assert_eq!(t.completed_at, None);
    assert_eq!(t.skipped_until, None);
}

#[test]
fn new_task_at_keeps_identity() {
    let t = Task::new_at("Mail".to_string(), Priority::Low, 5, 77, stamp(1_000, 3));
    assert_eq!(t.id, 77);
    assert_eq!(t.created_at, stamp(1_000, 3));
    assert!(!t.done);
}

#[test]
fn new_ids_are_version_four_and_distinct() {
    let a = new_id();
    let b = new_id();
    assert_ne!(a, b);
    for id in [a, b] {
        assert_eq!(id & 0xF000_C000_0000_0000_0000u128, 0x4000_8000_0000_0000_0000u128);
        assert_eq!(uuid::Uuid::from_u128(id).get_version_num(), 4);
    }
}

#[test]
fn minutes_over_saturates() {
    let t = Task::new_at("Long".to_string(), Priority::Low, 50, 1, stamp(0, 0));
    assert_eq!(t.minutes_over(30), 20);
    assert_eq!(t.minutes_over(50), 0);
    assert_eq!(t.minutes_over(90), 0);
}

#[test]
fn filters_admit() {
    assert!(Filter::All.admits(true));
    assert!(Filter::All.admits(false));
    assert!(Filter::Active.admits(false));
    assert!(!Filter::Active.admits(true));
    assert!(Filter::Completed.admits(true));
    assert!(!Filter::Completed.admits(false));
}

#[test]
fn wording() {
    assert_eq!(minutes_unit(1), "min");
    assert_eq!(minutes_unit(0), "mins");
    assert_eq!(minutes_unit(25), "mins");
    assert_eq!(plural_suffix(1), "");
    assert_eq!(plural_suffix(0), "s");
    assert_eq!(plural_suffix(3), "s");
}

#[test]
fn shifting_by_minutes_follows_chrono() {
    let first = -8_334_601_228_800i64;
    let last = 8_210_266_876_799i64;
    assert_eq!(add_minutes(stamp(1_700_000_000, 7), 15), Some(stamp(1_700_000_900, 7)));
    assert_eq!(add_minutes(stamp(last, 0), 0), Some(stamp(last, 0)));
    assert_eq!(add_minutes(stamp(last - 60, 0), 1), Some(stamp(last, 0)));
    assert_eq!(add_minutes(stamp(last - 59, 0), 1), None);
    assert_eq!(add_minutes(stamp(last + 1, 0), 0), None);
    assert_eq!(add_minutes(stamp(first, 0), 0), Some(stamp(first, 0)));
    assert_eq!(add_minutes(stamp(first - 1, 0), 0), None);
    // a leap second only in the last second of a minute
    assert_eq!(add_minutes(stamp(59, 1_200_000_000), 2), Some(stamp(179, 200_000_000)));
    assert_eq!(add_minutes(stamp(59, 1_200_000_000), 0), Some(stamp(59, 1_200_000_000)));
    assert_eq!(add_minutes(stamp(58, 1_200_000_000), 0), None);
    assert_eq!(add_minutes(stamp(59, 2_000_000_000), 0), None);
}

#[test]
fn clock_readings() {
    let t = minit::stamp::now();
    assert!(t.secs >= 0);
    assert!(t.nanos < 1_000_000_000);
}
