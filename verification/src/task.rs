//! Tasks, their priorities, and the filters of the task list.
use vstd::prelude::*;

use crate::ids::{new_id, version_variant_mask};
use crate::stamp::{is_clock_reading, now, Stamp};

verus! {

/// How urgent a task is; `Low < Medium < High`.
#[derive(Clone, Copy, Debug, PartialEq, Eq, PartialOrd, Ord, Structural)]
pub enum Priority {
    Low,
    Medium,
    High,
}

/// A colour as red, green and blue components.
#[derive(Clone, Copy, Debug, PartialEq, Eq, Structural)]
pub struct Rgb {
    pub r: u8,
    pub g: u8,
    pub b: u8,
}

impl Priority {
    /// The place of the priority in the order `Low < Medium < High`.
    pub open spec fn level(self) -> nat {
        match self {
            Priority::Low => 0,
            Priority::Medium => 1,
            Priority::High => 2,
        }
    }

    /// The name shown for the priority.
    pub open spec fn spec_label(self) -> Seq<char> {
        match self {
            Priority::Low => "Low"@,
            Priority::Medium => "Medium"@,
            Priority::High => "High"@,
        }
    }

    /// The colour of the dot drawn beside a task of this priority:
    /// blue for low, yellow for medium, red for high.
    pub open spec fn spec_color(self) -> Rgb {
        match self {
            Priority::Low => Rgb { r: 96, g: 165, b: 250 },
            Priority::Medium => Rgb { r: 250, g: 204, b: 21 },
            Priority::High => Rgb { r: 248, g: 113, b: 113 },
        }
    }

    /// The name shown for the priority.
    pub fn label(&self) -> (r: &'static str)
        ensures
            r@ == self.spec_label(),
    {
        match self {
            Priority::Low => "Low",
            Priority::Medium => "Medium",
            Priority::High => "High",
        }
    }

    /// The colour of the dot drawn beside a task of this priority.
    pub fn color(&self) -> (r: Rgb)
        ensures
            r == self.spec_color(),
    {
        match self {
            Priority::Low => Rgb { r: 96, g: 165, b: 250 },
            Priority::Medium => Rgb { r: 250, g: 204, b: 21 },
            Priority::High => Rgb { r: 248, g: 113, b: 113 },
        }
    }

    /// The place of the priority in the order `Low < Medium < High`.
    pub fn rank(&self) -> (r: u8)
        ensures
            r == self.level(),
    {
        match self {
            Priority::Low => 0,
            Priority::Medium => 1,
            Priority::High => 2,
        }
    }
}

/// One entry of the to-do list.
pub struct Task {
    pub id: u128,
    pub title: String,
    pub done: bool,
    pub priority: Priority,
    pub estimated_minutes: u32,
    pub created_at: Stamp,
    pub completed_at: Option<Stamp>,
    pub skipped_until: Option<Stamp>,
}

impl Task {
    /// A task that is still to do, has never been skipped, and has the given
    /// identifier and creation time.
    pub fn new_at(
        title: String,
        priority: Priority,
        estimated_minutes: u32,
        id: u128,
        created_at: Stamp,
    ) -> (t: Task)
        ensures
            t.id == id,
            t.title == title,
            !t.done,
            t.priority == priority,
            t.estimated_minutes == estimated_minutes,
            t.created_at == created_at,
            t.completed_at is None,
            t.skipped_until is None,
    {
        Task {
            id,
            title,
            done: false,
            priority,
            estimated_minutes,
            created_at,
            completed_at: None,
            skipped_until: None,
        }
    }

    /// A new task that is still to do, with a fresh random identifier and the
    /// current time as its creation time.
    pub fn new(title: String, priority: Priority, estimated_minutes: u32) -> (t: Task)
        ensures
            t.id & version_variant_mask() == 0x4000_8000_0000_0000_0000u128,
            t.title == title,
            !t.done,
            t.priority == priority,
            t.estimated_minutes == estimated_minutes,
            is_clock_reading(t.created_at),
            t.completed_at is None,
            t.skipped_until is None,
    {
        let id = new_id();
        let created_at = now();
        Task::new_at(title, priority, estimated_minutes, id, created_at)
    }

    /// How many minutes more than `available` the task is estimated to take
    /// (0 when it fits).
    pub open spec fn spec_minutes_over(self, available: u32) -> nat {
        if self.estimated_minutes > available {
            (self.estimated_minutes - available) as nat
        } else {
            0
        }
    }

    /// How many minutes more than `available` the task is estimated to take
    /// (0 when it fits).
    pub fn minutes_over(&self, available: u32) -> (r: u32)
        ensures
            r == self.spec_minutes_over(available),
    {
        self.estimated_minutes.saturating_sub(available)
    }
}

/// Which tasks the list shows.
#[derive(Clone, Copy, Debug, PartialEq, Eq, Structural)]
pub enum Filter {
    All,
    Active,
    Completed,
}

impl Filter {
    /// Whether the filter shows a task that is done (`done`) or not.
    pub open spec fn shows(self, done: bool) -> bool {
        match self {
            Filter::All => true,
            Filter::Active => !done,
            Filter::Completed => done,
        }
    }

    /// Whether the filter shows a task that is done (`done`) or not.
    pub fn admits(&self, done: bool) -> (r: bool)
        ensures
            r == self.shows(done),
    {
        match self {
            Filter::All => true,
            Filter::Active => !done,
            Filter::Completed => done,
        }
    }
}

} // verus!
