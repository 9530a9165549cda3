//! The state of the to-do list and every operation on it, including the
//! suggestion of what to do next.
use vstd::prelude::*;

use crate::ids::{new_id, version_variant_mask};
use crate::stamp::{add_minutes, minutes_later, is_clock_reading, now, Stamp};
use crate::task::{Filter, Priority, Task};
use crate::laws::law_skipped_not_suggested;
use crate::text::{lemma_trim_idempotent, str_trim, trimmed};

verus! {

/// What the list suggests doing next; each variant names a task by its id.
#[derive(Clone, Copy, Debug, PartialEq, Eq, Structural)]
pub enum Suggestion {
    /// An open task that fits in the free time and is not skipped: the one
    /// of highest priority, then the longest, then the oldest.
    Fits(u128),
    /// Every open task that fits is skipped: the shortest of them, then the
    /// oldest.
    FitsSkipped(u128),
    /// No open task fits in the free time: the shortest open task, then the
    /// oldest.
    Fallback(u128),
    /// No task is open.
    NoTasks,
}

/// A group of tasks that a suggestion chooses from.
#[derive(Clone, Copy, Debug, PartialEq, Eq, Structural)]
pub enum Pool {
    /// The tasks that are not done.
    Open,
    /// The open tasks that fit in the free time.
    Fitting,
    /// The fitting tasks that are not skipped at the given instant.
    Ready,
}

/// The settings of the list that are kept from one session to the next.
#[derive(Clone, Copy, Debug, PartialEq, Eq, Structural)]
pub struct Preferences {
    pub available_minutes: u32,
    pub new_task_minutes: u32,
    pub new_task_priority: Priority,
    pub filter: Filter,
}

impl Preferences {
    /// The preferences of a first session: 15 free minutes, a new task of
    /// 15 minutes and medium priority, every task shown.
    pub open spec fn spec_standard() -> Preferences {
        Preferences {
            available_minutes: 15,
            new_task_minutes: 15,
            new_task_priority: Priority::Medium,
            filter: Filter::All,
        }
    }

    /// The preferences of a first session.
    pub fn standard() -> (p: Preferences)
        ensures
            p == Preferences::spec_standard(),
    {
        Preferences {
            available_minutes: 15,
            new_task_minutes: 15,
            new_task_priority: Priority::Medium,
            filter: Filter::All,
        }
    }
}

/// The to-do list with the settings of its editor.
pub struct MinitApp {
    pub tasks: Vec<Task>,
    pub new_task_text: String,
    pub new_task_priority: Priority,
    pub new_task_minutes: u32,
    pub available_minutes: u32,
    pub filter: Filter,
    pub editing_id: Option<u128>,
    pub edit_buffer: String,
}

// ---------------------------------------------------------------------------
// The model
// ---------------------------------------------------------------------------

/// The task is not done yet.
pub open spec fn is_open(t: Task) -> bool {
    !t.done
}

/// The task's estimate is within the free time.
pub open spec fn fits(t: Task, available: u32) -> bool {
    t.estimated_minutes <= available
}

/// The task is not skipped at `now`: it was never skipped, or its skip has
/// run out by `now`.
pub open spec fn is_due(t: Task, now: Stamp) -> bool {
    match t.skipped_until {
        None => true,
        Some(until) => until.not_after(now),
    }
}

/// Membership of a task in a pool.
pub open spec fn in_pool(t: Task, pool: Pool, available: u32, now: Stamp) -> bool {
    match pool {
        Pool::Open => is_open(t),
        Pool::Fitting => is_open(t) && fits(t, available),
        Pool::Ready => is_open(t) && fits(t, available) && is_due(t, now),
    }
}

/// `a` is strictly shorter than `b`: by estimate, then by creation time.
pub open spec fn shorter(a: Task, b: Task) -> bool {
    a.estimated_minutes < b.estimated_minutes || (a.estimated_minutes == b.estimated_minutes
        && a.created_at.before(b.created_at))
}

/// The free time that would be left after the task (0 if it does not fit).
pub open spec fn slack(t: Task, available: u32) -> int {
    if t.estimated_minutes <= available {
        available - t.estimated_minutes
    } else {
        0
    }
}

/// `a` ranks strictly ahead of `b`: higher priority first, then less free
/// time left over, then older.
pub open spec fn ranks_ahead(a: Task, b: Task, available: u32) -> bool {
    a.priority.level() > b.priority.level() || (a.priority.level() == b.priority.level() && (
    slack(a, available) < slack(b, available) || (slack(a, available) == slack(b, available)
        && a.created_at.before(b.created_at))))
}

/// Among the first `n` tasks of `s`, `i` is the first of the shortest tasks
/// of `pool`.
pub open spec fn first_shortest(
    s: Seq<Task>,
    n: int,
    pool: Pool,
    available: u32,
    now: Stamp,
    i: int,
) -> bool {
    &&& 0 <= i < n <= s.len()
    &&& in_pool(s[i], pool, available, now)
    &&& forall|j: int|
        0 <= j < n && in_pool(#[trigger] s[j], pool, available, now) ==> !shorter(s[j], s[i])
    &&& forall|j: int|
        0 <= j < i && in_pool(#[trigger] s[j], pool, available, now) ==> shorter(s[i], s[j])
}

/// Among the first `n` tasks of `s`, `i` is the first of the ready tasks
/// that rank highest.
pub open spec fn first_best(s: Seq<Task>, n: int, available: u32, now: Stamp, i: int) -> bool {
    &&& 0 <= i < n <= s.len()
    &&& in_pool(s[i], Pool::Ready, available, now)
    &&& forall|j: int|
        0 <= j < n && in_pool(#[trigger] s[j], Pool::Ready, available, now) ==> !ranks_ahead(
            s[j],
            s[i],
            available,
        )
    &&& forall|j: int|
        0 <= j < i && in_pool(#[trigger] s[j], Pool::Ready, available, now) ==> ranks_ahead(
            s[i],
            s[j],
            available,
        )
}

/// Some task of `s` is in `pool`.
pub open spec fn pool_nonempty(s: Seq<Task>, pool: Pool, available: u32, now: Stamp) -> bool {
    exists|j: int| 0 <= j < s.len() && in_pool(#[trigger] s[j], pool, available, now)
}

/// What the list suggests for the tasks `s`, `available` free minutes and
/// the instant `now`.
pub open spec fn spec_suggest(s: Seq<Task>, available: u32, now: Stamp) -> Suggestion {
    let n = s.len() as int;
    if !pool_nonempty(s, Pool::Open, available, now) {
        Suggestion::NoTasks
    } else if !pool_nonempty(s, Pool::Fitting, available, now) {
        Suggestion::Fallback(
            s[choose|i: int| first_shortest(s, n, Pool::Open, available, now, i)].id,
        )
    } else if pool_nonempty(s, Pool::Ready, available, now) {
        Suggestion::Fits(s[choose|i: int| first_best(s, n, available, now, i)].id)
    } else {
        Suggestion::FitsSkipped(
            s[choose|i: int| first_shortest(s, n, Pool::Fitting, available, now, i)].id,
        )
    }
}

/// The suggestion names the task with the id `id`.
pub open spec fn names(suggestion: Suggestion, id: u128) -> bool {
    match suggestion {
        Suggestion::Fits(x) => x == id,
        Suggestion::FitsSkipped(x) => x == id,
        Suggestion::Fallback(x) => x == id,
        Suggestion::NoTasks => false,
    }
}

/// `i` is the first position of `s` that holds a task with the id `id`.
pub open spec fn is_first_with_id(s: Seq<Task>, id: u128, i: int) -> bool {
    &&& 0 <= i < s.len()
    &&& s[i].id == id
    &&& forall|j: int| 0 <= j < i ==> (#[trigger] s[j]).id != id
}

/// The first position of `s` that holds a task with the id `id`, if any.
pub open spec fn locate(s: Seq<Task>, id: u128) -> Option<int> {
    if exists|i: int| is_first_with_id(s, id, i) {
        Some(choose|i: int| is_first_with_id(s, id, i))
    } else {
        None
    }
}

/// The task with its done mark flipped; a task that becomes done is marked
/// completed at `now`, one that becomes undone loses its completion time.
pub open spec fn toggled(t: Task, now: Stamp) -> Task {
    Task { done: !t.done, completed_at: if !t.done { Some(now) } else { None }, ..t }
}

/// The task skipped until `until`.
pub open spec fn skipped(t: Task, until: Stamp) -> Task {
    Task { skipped_until: Some(until), ..t }
}

/// `s` with the first task of id `id` toggled at `now`.
pub open spec fn toggle_in(s: Seq<Task>, id: u128, now: Stamp) -> Seq<Task> {
    match locate(s, id) {
        Some(i) => s.update(i, toggled(s[i], now)),
        None => s,
    }
}

/// `s` with the first task of id `id` skipped until `until`.
pub open spec fn skip_in(s: Seq<Task>, id: u128, until: Stamp) -> Seq<Task> {
    match locate(s, id) {
        Some(i) => s.update(i, skipped(s[i], until)),
        None => s,
    }
}

/// `s` with the first task of id `id` skipped for `available` minutes from
/// `at`; unchanged where that instant does not exist.
pub open spec fn skip_for_free_time(s: Seq<Task>, id: u128, available: u32, at: Stamp) -> Seq<Task> {
    match minutes_later(at, available) {
        Some(until) => skip_in(s, id, until),
        None => s,
    }
}

/// Keeps the tasks whose id is not `id`.
pub open spec fn other_than(id: u128) -> spec_fn(Task) -> bool {
    |t: Task| t.id != id
}

/// Keeps the tasks that are not done.
pub open spec fn still_open() -> spec_fn(Task) -> bool {
    |t: Task| !t.done
}

/// Keeps the tasks that the filter shows.
pub open spec fn shown_by(f: Filter) -> spec_fn(Task) -> bool {
    |t: Task| f.shows(t.done)
}

/// No two tasks of `s` share an id.
pub open spec fn ids_unique(s: Seq<Task>) -> bool {
    forall|i: int, j: int| 0 <= i < s.len() && 0 <= j < s.len() && i != j ==> s[i].id != s[j].id
}

/// The task's title is trimmed and not blank, and its estimate is at least
/// one minute: what adding and renaming guarantee.
pub open spec fn is_tidy(t: Task) -> bool {
    &&& str_trim(t.title@) == t.title@
    &&& t.title@.len() > 0
    &&& t.estimated_minutes >= 1
}

/// Every task of `s` is tidy.
pub open spec fn all_tidy(s: Seq<Task>) -> bool {
    forall|i: int| 0 <= i < s.len() ==> is_tidy(#[trigger] s[i])
}

/// Two tasks agree on everything but their titles.
pub open spec fn same_but_title(a: Task, b: Task) -> bool {
    &&& a.id == b.id
    &&& a.done == b.done
    &&& a.priority == b.priority
    &&& a.estimated_minutes == b.estimated_minutes
    &&& a.created_at == b.created_at
    &&& a.completed_at == b.completed_at
    &&& a.skipped_until == b.skipped_until
}

/// The smallest estimate a new task gets: at least one minute.
pub open spec fn at_least_one(m: u32) -> u32 {
    if m >= 1 {
        m
    } else {
        1
    }
}

impl MinitApp {
    /// The two states agree on everything but the task list and the text of
    /// the new task.
    pub open spec fn same_settings(self, other: MinitApp) -> bool {
        &&& self.new_task_priority == other.new_task_priority
        &&& self.new_task_minutes == other.new_task_minutes
        &&& self.available_minutes == other.available_minutes
        &&& self.filter == other.filter
        &&& self.editing_id == other.editing_id
        &&& self.edit_buffer == other.edit_buffer
    }

    /// The two states agree on everything but the task list.
    pub open spec fn same_but_tasks(self, other: MinitApp) -> bool {
        &&& self.same_settings(other)
        &&& self.new_task_text == other.new_task_text
    }

    /// The preferences that the list holds.
    pub open spec fn spec_preferences(self) -> Preferences {
        Preferences {
            available_minutes: self.available_minutes,
            new_task_minutes: self.new_task_minutes,
            new_task_priority: self.new_task_priority,
            filter: self.filter,
        }
    }

    /// What the list suggests at `now`.
    pub open spec fn suggestion_at(self, now: Stamp) -> Suggestion {
        spec_suggest(self.tasks@, self.available_minutes, now)
    }
}

// ---------------------------------------------------------------------------
// Facts about the model
// ---------------------------------------------------------------------------

/// At most one position is the first of the shortest tasks of a pool.
pub proof fn lemma_first_shortest_unique(
    s: Seq<Task>,
    n: int,
    pool: Pool,
    available: u32,
    now: Stamp,
    i: int,
    k: int,
)
    requires
        first_shortest(s, n, pool, available, now, i),
        first_shortest(s, n, pool, available, now, k),
    ensures
        i == k,
{
    if i < k {
        assert(in_pool(s[i], pool, available, now));
    } else if k < i {
        assert(in_pool(s[k], pool, available, now));
    }
}

/// At most one position is the first of the best ready tasks.
pub proof fn lemma_first_best_unique(
    s: Seq<Task>,
    n: int,
    available: u32,
    now: Stamp,
    i: int,
    k: int,
)
    requires
        first_best(s, n, available, now, i),
        first_best(s, n, available, now, k),
    ensures
        i == k,
{
    if i < k {
        assert(in_pool(s[i], Pool::Ready, available, now));
    } else if k < i {
        assert(in_pool(s[k], Pool::Ready, available, now));
    }
}

/// At most one position is the first to hold a given id.
pub proof fn lemma_first_with_id_unique(s: Seq<Task>, id: u128, i: int, k: int)
    requires
        is_first_with_id(s, id, i),
        is_first_with_id(s, id, k),
    ensures
        i == k,
{
    if i < k {
        assert(s[i].id == id);
    } else if k < i {
        assert(s[k].id == id);
    }
}

/// `locate` finds the first position that holds the id.
pub proof fn lemma_locate_is(s: Seq<Task>, id: u128, i: int)
    requires
        is_first_with_id(s, id, i),
    ensures
        locate(s, id) == Some(i),
{
    let k = choose|k: int| is_first_with_id(s, id, k);
    lemma_first_with_id_unique(s, id, i, k);
}

/// `locate` finds nothing where no task holds the id.
pub proof fn lemma_locate_none(s: Seq<Task>, id: u128)
    requires
        forall|j: int| 0 <= j < s.len() ==> (#[trigger] s[j]).id != id,
    ensures
        locate(s, id) is None,
{
    if exists|i: int| is_first_with_id(s, id, i) {
        let k = choose|k: int| is_first_with_id(s, id, k);
        assert(s[k].id == id);
    }
}

/// Filtering the first `k + 1` elements adds at most the `k`-th element to
/// filtering the first `k`.
pub proof fn lemma_filter_take_step(s: Seq<Task>, p: spec_fn(Task) -> bool, k: int)
    requires
        0 <= k < s.len(),
    ensures
        s.take(k + 1).filter(p) == if p(s[k]) {
            s.take(k).filter(p).push(s[k])
        } else {
            s.take(k).filter(p)
        },
{
    reveal(Seq::filter);
    assert(s.take(k + 1).drop_last() =~= s.take(k));
    assert(s.take(k + 1).last() == s[k]);
}

// ---------------------------------------------------------------------------
// Executable helpers
// ---------------------------------------------------------------------------

/// Whether `a` is strictly shorter than `b`.
fn is_shorter(a: &Task, b: &Task) -> (r: bool)
    ensures
        r == shorter(*a, *b),
{
    a.estimated_minutes < b.estimated_minutes || (a.estimated_minutes == b.estimated_minutes
        && a.created_at.is_before(&b.created_at))
}

/// Whether `a` ranks strictly ahead of `b`.
fn is_ahead(a: &Task, b: &Task, available: u32) -> (r: bool)
    ensures
        r == ranks_ahead(*a, *b, available),
{
    let pa = a.priority.rank();
    let pb = b.priority.rank();
    if pa != pb {
        return pa > pb;
    }
    let sa = available.saturating_sub(a.estimated_minutes);
    let sb = available.saturating_sub(b.estimated_minutes);
    if sa != sb {
        return sa < sb;
    }
    a.created_at.is_before(&b.created_at)
}

/// Whether the task is in the pool.
fn is_in_pool(t: &Task, pool: Pool, available: u32, now: &Stamp) -> (r: bool)
    ensures
        r == in_pool(*t, pool, available, *now),
{
    let due = match &t.skipped_until {
        None => true,
        Some(until) => until.is_not_after(now),
    };
    match pool {
        Pool::Open => !t.done,
        Pool::Fitting => !t.done && t.estimated_minutes <= available,
        Pool::Ready => !t.done && t.estimated_minutes <= available && due,
    }
}

/// The first of the shortest tasks of the pool, if the pool has any task.
fn shortest_in(tasks: &Vec<Task>, pool: Pool, available: u32, now: &Stamp) -> (r: Option<usize>)
    ensures
        match r {
            Some(i) => first_shortest(tasks@, tasks@.len() as int, pool, available, *now, i as int),
            None => !pool_nonempty(tasks@, pool, available, *now),
        },
{
    let n = tasks.len();
    let mut best: Option<usize> = None;
    let mut i: usize = 0;
    while i < n
        invariant
            n == tasks@.len(),
            i <= n,
            match best {
                Some(b) => first_shortest(tasks@, i as int, pool, available, *now, b as int),
                None => forall|j: int|
                    0 <= j < i ==> !in_pool(#[trigger] tasks@[j], pool, available, *now),
            },
        decreases n - i,
    {
        if is_in_pool(&tasks[i], pool, available, now) {
            match best {
                None => {
                    best = Some(i);
                },
                Some(b) => {
                    if is_shorter(&tasks[i], &tasks[b]) {
                        best = Some(i);
                    }
                },
            }
        }
        i = i + 1;
    }
    best
}

/// The first of the best ready tasks, if any task is ready.
fn best_ready(tasks: &Vec<Task>, available: u32, now: &Stamp) -> (r: Option<usize>)
    ensures
        match r {
            Some(i) => first_best(tasks@, tasks@.len() as int, available, *now, i as int),
            None => !pool_nonempty(tasks@, Pool::Ready, available, *now),
        },
{
    let n = tasks.len();
    let mut best: Option<usize> = None;
    let mut i: usize = 0;
    while i < n
        invariant
            n == tasks@.len(),
            i <= n,
            match best {
                Some(b) => first_best(tasks@, i as int, available, *now, b as int),
                None => forall|j: int|
                    0 <= j < i ==> !in_pool(#[trigger] tasks@[j], Pool::Ready, available, *now),
            },
        decreases n - i,
    {
        if is_in_pool(&tasks[i], Pool::Ready, available, now) {
            match best {
                None => {
                    best = Some(i);
                },
                Some(b) => {
                    if is_ahead(&tasks[i], &tasks[b], available) {
                        best = Some(i);
                    }
                },
            }
        }
        i = i + 1;
    }
    best
}

/// The first position that holds a task with the id.
fn position_of(tasks: &Vec<Task>, id: u128) -> (r: Option<usize>)
    ensures
        match r {
            Some(i) => locate(tasks@, id) == Some(i as int) && is_first_with_id(tasks@, id, i as int),
            None => locate(tasks@, id) is None,
        },
{
    let n = tasks.len();
    let mut i: usize = 0;
    while i < n
        invariant
            n == tasks@.len(),
            i <= n,
            forall|j: int| 0 <= j < i ==> (#[trigger] tasks@[j]).id != id,
        decreases n - i,
    {
        if tasks[i].id == id {
            proof {
                lemma_locate_is(tasks@, id, i as int);
            }
            return Some(i);
        }
        i = i + 1;
    }
    proof {
        lemma_locate_none(tasks@, id);
    }
    None
}

/// Which tasks a removal takes out of the list.
enum Removal {
    /// The tasks with this id.
    WithId(u128),
    /// The tasks that are done.
    Done,
}

/// The tasks that a removal keeps.
spec fn kept_by(rule: Removal) -> spec_fn(Task) -> bool {
    match rule {
        Removal::WithId(id) => other_than(id),
        Removal::Done => still_open(),
    }
}

/// Whether the removal takes the task out.
fn is_removed(t: &Task, rule: &Removal) -> (r: bool)
    ensures
        r == !kept_by(*rule)(*t),
{
    match rule {
        Removal::WithId(id) => t.id == *id,
        Removal::Done => t.done,
    }
}

/// Takes out of the list the tasks that the removal names; the others keep
/// their order.
fn remove_matching(tasks: &mut Vec<Task>, rule: Removal)
    ensures
        final(tasks)@ == old(tasks)@.filter(kept_by(rule)),
{
    let ghost s = old(tasks)@;
    let ghost p = kept_by(rule);
    let ghost mut k: int = 0;
    let mut i: usize = 0;
    while i < tasks.len()
        invariant
            0 <= k <= s.len(),
            p == kept_by(rule),
            i == s.take(k).filter(p).len(),
            tasks@ == s.take(k).filter(p) + s.skip(k),
        decreases s.len() - k,
    {
        proof {
            lemma_filter_take_step(s, p, k);
            assert(tasks@[i as int] == s[k]);
        }
        if is_removed(&tasks[i], &rule) {
            tasks.remove(i);
            proof {
                assert(tasks@ =~= s.take(k + 1).filter(p) + s.skip(k + 1));
            }
        } else {
            i = i + 1;
            proof {
                assert(tasks@ =~= s.take(k + 1).filter(p) + s.skip(k + 1));
            }
        }
        proof {
            k = k + 1;
        }
    }
    proof {
        assert(s.take(k).filter(p).len() + s.skip(k).len() == tasks@.len());
        assert(k == s.len());
        assert(s.take(k) =~= s);
        assert(tasks@ =~= s.filter(p));
    }
}

// ---------------------------------------------------------------------------
// Operations
// ---------------------------------------------------------------------------

impl MinitApp {
    /// A list holding `tasks`, with the editor's settings at their start
    /// values: a medium-priority new task of 15 minutes, 15 free minutes,
    /// every task shown, nothing being edited.
    pub fn new(tasks: Vec<Task>) -> (app: MinitApp)
        ensures
            app.tasks == tasks,
            app.new_task_text@ == Seq::<char>::empty(),
            app.new_task_priority == Priority::Medium,
            app.new_task_minutes == 15,
            app.available_minutes == 15,
            app.filter == Filter::All,
            app.editing_id is None,
            app.edit_buffer@ == Seq::<char>::empty(),
    {
        MinitApp::with_preferences(tasks, Preferences::standard())
    }

    /// A list holding `tasks`, with the preferences of an earlier session;
    /// nothing being typed or edited.
    pub fn with_preferences(tasks: Vec<Task>, preferences: Preferences) -> (app: MinitApp)
        ensures
            app.tasks == tasks,
            app.spec_preferences() == preferences,
            app.new_task_text@ == Seq::<char>::empty(),
            app.editing_id is None,
            app.edit_buffer@ == Seq::<char>::empty(),
    {
        MinitApp {
            tasks,
            new_task_text: String::new(),
            new_task_priority: preferences.new_task_priority,
            new_task_minutes: preferences.new_task_minutes,
            available_minutes: preferences.available_minutes,
            filter: preferences.filter,
            editing_id: None,
            edit_buffer: String::new(),
        }
    }

    /// The preferences to keep for the next session.
    pub fn preferences(&self) -> (p: Preferences)
        ensures
            p == self.spec_preferences(),
    {
        Preferences {
            available_minutes: self.available_minutes,
            new_task_minutes: self.new_task_minutes,
            new_task_priority: self.new_task_priority,
            filter: self.filter,
        }
    }

    /// What to do next, judged at the instant `now`.
    pub fn suggest_at(&self, now: Stamp) -> (r: Suggestion)
        ensures
            r == self.suggestion_at(now),
    {
        let ghost s = self.tasks@;
        let ghost n = s.len() as int;
        let available = self.available_minutes;
        match shortest_in(&self.tasks, Pool::Open, available, &now) {
            None => Suggestion::NoTasks,
            Some(o) => {
                proof {
                    assert(in_pool(s[o as int], Pool::Open, available, now));
                }
                match shortest_in(&self.tasks, Pool::Fitting, available, &now) {
                    None => {
                        proof {
                            let k = choose|k: int| first_shortest(s, n, Pool::Open, available, now, k);
                            lemma_first_shortest_unique(s, n, Pool::Open, available, now, o as int, k);
                        }
                        Suggestion::Fallback(self.tasks[o].id)
                    },
                    Some(f) => {
                        proof {
                            assert(in_pool(s[f as int], Pool::Fitting, available, now));
                        }
                        match best_ready(&self.tasks, available, &now) {
                            Some(b) => {
                                proof {
                                    assert(in_pool(s[b as int], Pool::Ready, available, now));
                                    let k = choose|k: int| first_best(s, n, available, now, k);
                                    lemma_first_best_unique(s, n, available, now, b as int, k);
                                }
                                Suggestion::Fits(self.tasks[b].id)
                            },
                            None => {
                                proof {
                                    let k = choose|k: int|
                                        first_shortest(s, n, Pool::Fitting, available, now, k);
                                    lemma_first_shortest_unique(
                                        s,
                                        n,
                                        Pool::Fitting,
                                        available,
                                        now,
                                        f as int,
                                        k,
                                    );
                                }
                                Suggestion::FitsSkipped(self.tasks[f].id)
                            },
                        }
                    },
                }
            },
        }
    }

    /// What to do next, judged at the current instant.
    pub fn suggest(&self) -> (r: Suggestion)
        ensures
            exists|at: Stamp| is_clock_reading(at) && r == self.suggestion_at(at),
    {
        let at = now();
        self.suggest_at(at)
    }

    /// The first task with the id, if any.
    pub fn task_by_id(&self, id: u128) -> (r: Option<&Task>)
        ensures
            match locate(self.tasks@, id) {
                Some(i) => r == Some(&self.tasks@[i]),
                None => r is None,
            },
    {
        match position_of(&self.tasks, id) {
            Some(i) => Some(&self.tasks[i]),
            None => None,
        }
    }

    /// Flips the done mark of the first task with the id; a task that becomes
    /// done is marked completed at `now`.
    pub fn toggle_task_at(&mut self, id: u128, now: Stamp)
        ensures
            final(self).tasks@ == toggle_in(old(self).tasks@, id, now),
            final(self).same_but_tasks(*old(self)),
    {
        match position_of(&self.tasks, id) {
            Some(i) => {
                let done = !self.tasks[i].done;
                self.tasks[i].done = done;
                self.tasks[i].completed_at = if done { Some(now) } else { None };
                proof {
                    assert(self.tasks@ =~= toggle_in(old(self).tasks@, id, now));
                }
            },
            None => {},
        }
    }

    /// Flips the done mark of the first task with the id, at the current
    /// instant.
    pub fn toggle_task(&mut self, id: u128)
        ensures
            exists|at: Stamp|
                is_clock_reading(at) && final(self).tasks@ == toggle_in(old(self).tasks@, id, at),
            final(self).same_but_tasks(*old(self)),
    {
        let at = now();
        self.toggle_task_at(id, at);
    }

    /// Skips the first task with the id until `until`.
    pub fn skip_task_until(&mut self, id: u128, until: Stamp)
        ensures
            final(self).tasks@ == skip_in(old(self).tasks@, id, until),
            final(self).same_but_tasks(*old(self)),
    {
        match position_of(&self.tasks, id) {
            Some(i) => {
                self.tasks[i].skipped_until = Some(until);
                proof {
                    assert(self.tasks@ =~= skip_in(old(self).tasks@, id, until));
                }
            },
            None => {},
        }
    }

    /// Skips the first task with the id for as many minutes as are free,
    /// counted from `now`. Returns whether that instant exists; where it
    /// does not, nothing changes.
    pub fn skip_task_at(&mut self, id: u128, now: Stamp) -> (r: bool)
        ensures
            r == minutes_later(now, old(self).available_minutes) is Some,
            match minutes_later(now, old(self).available_minutes) {
                Some(until) => final(self).tasks@ == skip_in(old(self).tasks@, id, until),
                None => final(self).tasks@ == old(self).tasks@,
            },
            r && ids_unique(old(self).tasks@) && old(self).available_minutes > 0 ==> spec_suggest(
                final(self).tasks@,
                old(self).available_minutes,
                now,
            ) != Suggestion::Fits(id),
            final(self).same_but_tasks(*old(self)),
    {
        match add_minutes(now, self.available_minutes) {
            Some(until) => {
                self.skip_task_until(id, until);
                proof {
                    if old(self).available_minutes > 0 && ids_unique(old(self).tasks@) {
                        assert(now.before(until));
                        law_skipped_not_suggested(
                            old(self).tasks@,
                            id,
                            old(self).available_minutes,
                            now,
                            until,
                        );
                    }
                }
                true
            },
            None => false,
        }
    }

    /// Skips the first task with the id for as many minutes as are free,
    /// counted from the current instant.
    pub fn skip_task(&mut self, id: u128)
        ensures
            exists|at: Stamp|
                is_clock_reading(at) && final(self).tasks@ == #[trigger] skip_for_free_time(
                    old(self).tasks@,
                    id,
                    old(self).available_minutes,
                    at,
                ),
            final(self).same_but_tasks(*old(self)),
    {
        let at = now();
        let _ = self.skip_task_at(id, at);
        proof {
            assert(self.tasks@ == skip_for_free_time(
                old(self).tasks@,
                id,
                old(self).available_minutes,
                at,
            ));
        }
    }

    /// Removes every task with the id; the others keep their order.
    pub fn delete_task(&mut self, id: u128)
        ensures
            final(self).tasks@ == old(self).tasks@.filter(other_than(id)),
            final(self).same_but_tasks(*old(self)),
    {
        remove_matching(&mut self.tasks, Removal::WithId(id));
    }

    /// Removes every task that is done; the others keep their order.
    pub fn clear_completed(&mut self)
        ensures
            final(self).tasks@ == old(self).tasks@.filter(still_open()),
            final(self).same_but_tasks(*old(self)),
    {
        remove_matching(&mut self.tasks, Removal::Done);
    }

    /// The tasks that the current filter shows, in list order.
    pub fn visible_tasks(&self) -> (r: Vec<&Task>)
        ensures
            r@.len() == self.tasks@.filter(shown_by(self.filter)).len(),
            forall|j: int|
                0 <= j < r@.len() ==> *r@[j] == self.tasks@.filter(shown_by(self.filter))[j],
    {
        let ghost s = self.tasks@;
        let ghost p = shown_by(self.filter);
        let mut r: Vec<&Task> = Vec::new();
        let n = self.tasks.len();
        let mut i: usize = 0;
        while i < n
            invariant
                n == s.len(),
                s == self.tasks@,
                p == shown_by(self.filter),
                i <= n,
                r@.len() == s.take(i as int).filter(p).len(),
                forall|j: int| 0 <= j < r@.len() ==> *r@[j] == s.take(i as int).filter(p)[j],
            decreases n - i,
        {
            proof {
                lemma_filter_take_step(s, p, i as int);
            }
            if self.filter.admits(self.tasks[i].done) {
                r.push(&self.tasks[i]);
            }
            i = i + 1;
        }
        proof {
            assert(s.take(n as int) =~= s);
        }
        r
    }

    /// How many tasks are not done.
    pub fn remaining_count(&self) -> (r: usize)
        ensures
            r == self.tasks@.filter(still_open()).len(),
    {
        let ghost s = self.tasks@;
        let ghost p = still_open();
        let n = self.tasks.len();
        let mut count: usize = 0;
        let mut i: usize = 0;
        while i < n
            invariant
                n == s.len(),
                s == self.tasks@,
                i <= n,
                p == still_open(),
                count == s.take(i as int).filter(p).len(),
            decreases n - i,
        {
            proof {
                lemma_filter_take_step(s, p, i as int);
                s.take(i as int).lemma_filter_len(p);
            }
            if !self.tasks[i].done {
                proof {
                    assert(p(s[i as int]));
                }
                count = count + 1;
            } else {
                proof {
                    assert(!p(s[i as int]));
                }
            }
            i = i + 1;
        }
        proof {
            assert(s.take(n as int) =~= s);
        }
        count
    }

    /// Adds the text of the new task, trimmed, as a task with identifier `id`
    /// created at `now`, unless it is blank; then clears the text. Returns
    /// whether a task was added.
    pub fn add_task_at(&mut self, id: u128, now: Stamp) -> (added: bool)
        ensures
            added == (str_trim(old(self).new_task_text@).len() > 0),
            added ==> {
                let t = final(self).tasks@.last();
                &&& final(self).tasks@.len() == old(self).tasks@.len() + 1
                &&& final(self).tasks@.drop_last() == old(self).tasks@
                &&& t.id == id
                &&& t.title@ == str_trim(old(self).new_task_text@)
                &&& !t.done
                &&& t.priority == old(self).new_task_priority
                &&& t.estimated_minutes == at_least_one(old(self).new_task_minutes)
                &&& old(self).new_task_minutes >= 1 ==> t.estimated_minutes == old(self).new_task_minutes
                &&& old(self).new_task_minutes == 0 ==> t.estimated_minutes == 1
                &&& t.created_at == now
                &&& t.completed_at is None
                &&& t.skipped_until is None
                &&& final(self).new_task_text@ == Seq::<char>::empty()
                &&& final(self).same_settings(*old(self))
            },
            all_tidy(old(self).tasks@) ==> all_tidy(final(self).tasks@),
            !added ==> *final(self) == *old(self),
    {
        let title = trimmed(self.new_task_text.as_str());
        if title.as_str().is_empty() {
            return false;
        }
        let minutes = if self.new_task_minutes >= 1 {
            self.new_task_minutes
        } else {
            1
        };
        let task = Task::new_at(title, self.new_task_priority, minutes, id, now);
        self.tasks.push(task);
        self.new_task_text = String::new();
        proof {
            assert(self.tasks@.drop_last() =~= old(self).tasks@);
            lemma_trim_idempotent(old(self).new_task_text@);
            if all_tidy(old(self).tasks@) {
                assert forall|j: int| 0 <= j < self.tasks@.len() implies is_tidy(
                    #[trigger] self.tasks@[j],
                ) by {
                    if j < old(self).tasks@.len() {
                        assert(self.tasks@[j] == old(self).tasks@[j]);
                    }
                }
            }
        }
        true
    }

    /// Adds the text of the new task, trimmed, as a task with a fresh random
    /// identifier created now, unless it is blank; then clears the text.
    /// Returns whether a task was added.
    pub fn add_task(&mut self) -> (added: bool)
        ensures
            added == (str_trim(old(self).new_task_text@).len() > 0),
            added ==> {
                let t = final(self).tasks@.last();
                &&& final(self).tasks@.len() == old(self).tasks@.len() + 1
                &&& final(self).tasks@.drop_last() == old(self).tasks@
                &&& t.id & version_variant_mask() == 0x4000_8000_0000_0000_0000u128
                &&& t.title@ == str_trim(old(self).new_task_text@)
                &&& !t.done
                &&& t.priority == old(self).new_task_priority
                &&& t.estimated_minutes == at_least_one(old(self).new_task_minutes)
                &&& old(self).new_task_minutes >= 1 ==> t.estimated_minutes == old(self).new_task_minutes
                &&& old(self).new_task_minutes == 0 ==> t.estimated_minutes == 1
                &&& is_clock_reading(t.created_at)
                &&& t.completed_at is None
                &&& t.skipped_until is None
                &&& final(self).new_task_text@ == Seq::<char>::empty()
                &&& final(self).same_settings(*old(self))
            },
            all_tidy(old(self).tasks@) ==> all_tidy(final(self).tasks@),
            !added ==> *final(self) == *old(self),
    {
        let id = new_id();
        let at = now();
        self.add_task_at(id, at)
    }

    /// Starts editing the title of the task with the id, from `title`.
    pub fn begin_edit(&mut self, id: u128, title: String)
        ensures
            final(self).editing_id == Some(id),
            final(self).edit_buffer == title,
            final(self).tasks == old(self).tasks,
            final(self).new_task_text == old(self).new_task_text,
            final(self).new_task_priority == old(self).new_task_priority,
            final(self).new_task_minutes == old(self).new_task_minutes,
            final(self).available_minutes == old(self).available_minutes,
            final(self).filter == old(self).filter,
    {
        self.editing_id = Some(id);
        self.edit_buffer = title;
    }

    /// Stops editing without changing any title.
    pub fn cancel_edit(&mut self)
        ensures
            final(self).editing_id is None,
            final(self).edit_buffer == old(self).edit_buffer,
            final(self).tasks == old(self).tasks,
            final(self).new_task_text == old(self).new_task_text,
            final(self).new_task_priority == old(self).new_task_priority,
            final(self).new_task_minutes == old(self).new_task_minutes,
            final(self).available_minutes == old(self).available_minutes,
            final(self).filter == old(self).filter,
    {
        self.editing_id = None;
    }

    /// Ends editing: unless the edited title, trimmed, is blank, it becomes
    /// the title of the first task with the id. Returns whether the title
    /// was not blank (whether the list is to be saved).
    pub fn commit_edit(&mut self, id: u128) -> (r: bool)
        ensures
            r == (str_trim(old(self).edit_buffer@).len() > 0),
            final(self).editing_id is None,
            final(self).edit_buffer == old(self).edit_buffer,
            final(self).new_task_text == old(self).new_task_text,
            final(self).new_task_priority == old(self).new_task_priority,
            final(self).new_task_minutes == old(self).new_task_minutes,
            final(self).available_minutes == old(self).available_minutes,
            final(self).filter == old(self).filter,
            all_tidy(old(self).tasks@) ==> all_tidy(final(self).tasks@),
            match (r, locate(old(self).tasks@, id)) {
                (true, Some(i)) => {
                    &&& final(self).tasks@.len() == old(self).tasks@.len()
                    &&& forall|j: int|
                        0 <= j < old(self).tasks@.len() && j != i ==> final(self).tasks@[j]
                            == old(self).tasks@[j]
                    &&& same_but_title(final(self).tasks@[i], old(self).tasks@[i])
                    &&& final(self).tasks@[i].title@ == str_trim(old(self).edit_buffer@)
                },
                _ => final(self).tasks@ == old(self).tasks@,
            },
    {
        let title = trimmed(self.edit_buffer.as_str());
        let changed = !title.as_str().is_empty();
        if changed {
            match position_of(&self.tasks, id) {
                Some(i) => {
                    self.tasks[i].title = title;
                    proof {
                        lemma_trim_idempotent(old(self).edit_buffer@);
                        if all_tidy(old(self).tasks@) {
                            assert forall|j: int| 0 <= j < self.tasks@.len() implies is_tidy(
                                #[trigger] self.tasks@[j],
                            ) by {
                                assert(is_tidy(old(self).tasks@[j]));
                            }
                        }
                    }
                },
                None => {},
            }
        }
        self.editing_id = None;
        changed
    }
}

/// The unit written after a number of minutes: "min" for one, else "mins".
pub fn minutes_unit(minutes: u32) -> (r: &'static str)
    ensures
        r@ == (if minutes == 1 {
            "min"@
        } else {
            "mins"@
        }),
{
    if minutes == 1 {
        "min"
    } else {
        "mins"
    }
}

/// The ending of "item" after a count: "" for one, else "s".
pub fn plural_suffix(count: usize) -> (r: &'static str)
    ensures
        r@ == (if count == 1 {
            ""@
        } else {
            "s"@
        }),
{
    if count == 1 {
        ""
    } else {
        "s"
    }
}

} // verus!
