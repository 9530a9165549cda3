//! Properties of the to-do list that span its operations.
use vstd::prelude::*;

use crate::planner::{
    at_least_one,
    all_tidy, ids_unique, is_tidy,
    fits, first_best, first_shortest, in_pool, is_due, is_first_with_id, lemma_locate_is,
    lemma_first_best_unique, lemma_first_shortest_unique, lemma_locate_none, locate, names,
    other_than, pool_nonempty, ranks_ahead, shorter, shown_by,
    skip_in, spec_suggest, still_open, toggle_in, Pool, Suggestion,
};
use crate::stamp::Stamp;
use crate::task::{Filter, Task};

verus! {

/// Two tasks agree on everything but their completion times.
pub open spec fn same_but_completion(a: Task, b: Task) -> bool {
    &&& a.id == b.id
    &&& a.title == b.title
    &&& a.done == b.done
    &&& a.priority == b.priority
    &&& a.estimated_minutes == b.estimated_minutes
    &&& a.created_at == b.created_at
    &&& a.skipped_until == b.skipped_until
}

/// Toggling a task twice gives back every done mark; a task that was open
/// with no completion time comes back exactly as it was.
pub proof fn law_toggle_twice(s: Seq<Task>, id: u128, first: Stamp, second: Stamp)
    ensures
        toggle_in(toggle_in(s, id, first), id, second).len() == s.len(),
        forall|j: int|
            0 <= j < s.len() ==> same_but_completion(
                #[trigger] toggle_in(toggle_in(s, id, first), id, second)[j],
                s[j],
            ),
        (forall|i: int|
            is_first_with_id(s, id, i) ==> !s[i].done && s[i].completed_at is None)
            ==> toggle_in(toggle_in(s, id, first), id, second) == s,
{
    let once = toggle_in(s, id, first);
    let twice = toggle_in(once, id, second);
    match locate(s, id) {
        Some(i) => {
            let k = choose|k: int| is_first_with_id(s, id, k);
            assert(is_first_with_id(s, id, k));
            assert(k == i);
            assert(is_first_with_id(once, id, i));
            lemma_locate_is(once, id, i);
            if forall|i: int| is_first_with_id(s, id, i) ==> !s[i].done && s[i].completed_at is None {
                assert(twice =~= s);
            }
        },
        None => {
            assert(once == s);
        },
    }
}

/// After deleting an id, no task carries it, every task with another id is
/// still there, and deleting it again changes nothing.
pub proof fn law_delete_removes_id(s: Seq<Task>, id: u128)
    ensures
        locate(s.filter(other_than(id)), id) is None,
        forall|t: Task| s.contains(t) && t.id != id ==> #[trigger] s.filter(other_than(id)).contains(t),
        s.filter(other_than(id)).filter(other_than(id)) == s.filter(other_than(id)),
{
    let p = other_than(id);
    let d = s.filter(p);
    assert forall|j: int| 0 <= j < d.len() implies (#[trigger] d[j]).id != id by {
        s.lemma_filter_pred(p, j);
    }
    lemma_locate_none(d, id);
    assert forall|t: Task| s.contains(t) && t.id != id implies #[trigger] d.contains(t) by {
        let j = choose|j: int| 0 <= j < s.len() && s[j] == t;
        s.lemma_filter_contains(p, j);
    }
    lemma_filter_keeps_all(d, p);
}

/// Filtering a sequence whose every element passes changes nothing.
pub proof fn lemma_filter_keeps_all(s: Seq<Task>, p: spec_fn(Task) -> bool)
    requires
        forall|j: int| 0 <= j < s.len() ==> p(#[trigger] s[j]),
    ensures
        s.filter(p) == s,
    decreases s.len(),
{
    reveal(Seq::filter);
    if s.len() > 0 {
        lemma_filter_keeps_all(s.drop_last(), p);
        assert(s.drop_last().push(s.last()) =~= s);
    }
}

/// Filtering a sequence whose every element fails leaves nothing.
pub proof fn lemma_filter_drops_all(s: Seq<Task>, p: spec_fn(Task) -> bool)
    requires
        forall|j: int| 0 <= j < s.len() ==> !p(#[trigger] s[j]),
    ensures
        s.filter(p).len() == 0,
    decreases s.len(),
{
    reveal(Seq::filter);
    if s.len() > 0 {
        lemma_filter_drops_all(s.drop_last(), p);
    }
}

/// After clearing the completed tasks, none is done, the list is what the
/// "Active" filter showed before, and the "Completed" filter shows nothing.
pub proof fn law_clear_completed(s: Seq<Task>)
    ensures
        forall|j: int|
            0 <= j < s.filter(still_open()).len() ==> !(#[trigger] s.filter(still_open())[j]).done,
        s.filter(still_open()) == s.filter(shown_by(Filter::Active)),
        s.filter(still_open()).filter(shown_by(Filter::Completed)).len() == 0,
{
    let c = s.filter(still_open());
    assert forall|j: int| 0 <= j < c.len() implies !(#[trigger] c[j]).done by {
        s.lemma_filter_pred(still_open(), j);
    }
    assert(still_open() =~= shown_by(Filter::Active));
    assert forall|j: int| 0 <= j < c.len() implies !shown_by(Filter::Completed)(#[trigger] c[j]) by {
        s.lemma_filter_pred(still_open(), j);
    }
    lemma_filter_drops_all(c, shown_by(Filter::Completed));
}

/// The "All" filter shows every task, and every task is shown by exactly
/// one of "Active" and "Completed".
pub proof fn law_filters_partition(s: Seq<Task>)
    ensures
        s.filter(shown_by(Filter::All)) == s,
        s.filter(shown_by(Filter::Active)).len() + s.filter(shown_by(Filter::Completed)).len()
            == s.len(),
    decreases s.len(),
{
    reveal(Seq::filter);
    lemma_filter_keeps_all(s, shown_by(Filter::All));
    if s.len() > 0 {
        law_filters_partition(s.drop_last());
    }
}

/// If some task of the first `n` is in the pool, one of them is the first
/// of the shortest.
pub proof fn lemma_first_shortest_exists(
    s: Seq<Task>,
    n: int,
    pool: Pool,
    available: u32,
    now: Stamp,
)
    requires
        0 <= n <= s.len(),
        exists|j: int| 0 <= j < n && in_pool(#[trigger] s[j], pool, available, now),
    ensures
        exists|i: int| first_shortest(s, n, pool, available, now, i),
    decreases n,
{
    let last = n - 1;
    if exists|j: int| 0 <= j < last && in_pool(#[trigger] s[j], pool, available, now) {
        lemma_first_shortest_exists(s, last, pool, available, now);
        let b = choose|i: int| first_shortest(s, last, pool, available, now, i);
        if in_pool(s[last], pool, available, now) && shorter(s[last], s[b]) {
            assert(first_shortest(s, n, pool, available, now, last));
        } else {
            assert(first_shortest(s, n, pool, available, now, b));
        }
    } else {
        assert(first_shortest(s, n, pool, available, now, last));
    }
}

/// If some task of the first `n` is ready, one of them is the first of the
/// best.
pub proof fn lemma_first_best_exists(s: Seq<Task>, n: int, available: u32, now: Stamp)
    requires
        0 <= n <= s.len(),
        exists|j: int| 0 <= j < n && in_pool(#[trigger] s[j], Pool::Ready, available, now),
    ensures
        exists|i: int| first_best(s, n, available, now, i),
    decreases n,
{
    let last = n - 1;
    if exists|j: int| 0 <= j < last && in_pool(#[trigger] s[j], Pool::Ready, available, now) {
        lemma_first_best_exists(s, last, available, now);
        let b = choose|i: int| first_best(s, last, available, now, i);
        if in_pool(s[last], Pool::Ready, available, now) && ranks_ahead(s[last], s[b], available) {
            assert(first_best(s, n, available, now, last));
        } else {
            assert(first_best(s, n, available, now, b));
        }
    } else {
        assert(first_best(s, n, available, now, last));
    }
}

/// A suggestion always names an open task of the list, and the kind of
/// suggestion tells what was possible: `Fits` names a task that fits, is
/// not skipped, and that no such task outranks; `FitsSkipped` names the
/// shortest task that fits when every fitting task is skipped; `Fallback`
/// names the shortest open task when none fits; `NoTasks` comes exactly
/// when every task is done.
pub proof fn law_suggestion_sound(s: Seq<Task>, available: u32, now: Stamp)
    ensures
        (spec_suggest(s, available, now) == Suggestion::NoTasks) == (forall|j: int|
            0 <= j < s.len() ==> (#[trigger] s[j]).done),
        spec_suggest(s, available, now) matches Suggestion::Fits(x) ==> exists|i: int|
            0 <= i < s.len() && #[trigger] s[i].id == x && !s[i].done && fits(s[i], available)
                && is_due(s[i], now) && forall|j: int|
                0 <= j < s.len() && in_pool(#[trigger] s[j], Pool::Ready, available, now)
                    ==> !ranks_ahead(s[j], s[i], available),
        spec_suggest(s, available, now) matches Suggestion::FitsSkipped(x) ==> exists|i: int|
            0 <= i < s.len() && #[trigger] s[i].id == x && !s[i].done && fits(s[i], available)
                && (forall|j: int|
                0 <= j < s.len() && in_pool(#[trigger] s[j], Pool::Fitting, available, now)
                    ==> !is_due(s[j], now) && !shorter(s[j], s[i])),
        spec_suggest(s, available, now) matches Suggestion::Fallback(x) ==> exists|i: int|
            0 <= i < s.len() && #[trigger] s[i].id == x && !s[i].done && (forall|j: int|
                0 <= j < s.len() && !(#[trigger] s[j]).done ==> !fits(s[j], available)
                    && !shorter(s[j], s[i])),
{
    let n = s.len() as int;
    if !pool_nonempty(s, Pool::Open, available, now) {
        assert forall|j: int| 0 <= j < s.len() implies (#[trigger] s[j]).done by {
            if !s[j].done {
                assert(in_pool(s[j], Pool::Open, available, now));
            }
        }
    } else {
        let w = choose|j: int| 0 <= j < s.len() && in_pool(#[trigger] s[j], Pool::Open, available, now);
        assert(!s[w].done);
        if !pool_nonempty(s, Pool::Fitting, available, now) {
            lemma_first_shortest_exists(s, n, Pool::Open, available, now);
            let i = choose|i: int| first_shortest(s, n, Pool::Open, available, now, i);
            assert forall|j: int| 0 <= j < s.len() && !(#[trigger] s[j]).done implies !fits(
                s[j],
                available,
            ) && !shorter(s[j], s[i]) by {
                assert(in_pool(s[j], Pool::Open, available, now));
                if fits(s[j], available) {
                    assert(in_pool(s[j], Pool::Fitting, available, now));
                }
            }
        } else if pool_nonempty(s, Pool::Ready, available, now) {
            lemma_first_best_exists(s, n, available, now);
            let i = choose|i: int| first_best(s, n, available, now, i);
            assert(in_pool(s[i], Pool::Ready, available, now));
        } else {
            lemma_first_shortest_exists(s, n, Pool::Fitting, available, now);
            let i = choose|i: int| first_shortest(s, n, Pool::Fitting, available, now, i);
            assert forall|j: int|
                0 <= j < s.len() && in_pool(#[trigger] s[j], Pool::Fitting, available, now)
                    implies !is_due(s[j], now) && !shorter(s[j], s[i]) by {
                if is_due(s[j], now) {
                    assert(in_pool(s[j], Pool::Ready, available, now));
                }
            }
            assert(in_pool(s[i], Pool::Fitting, available, now));
        }
    }
}

/// Skipping a task until a later instant keeps it from being suggested as
/// the task that fits at the instant of the skip (ids being unique).
pub proof fn law_skipped_not_suggested(
    s: Seq<Task>,
    id: u128,
    available: u32,
    now: Stamp,
    until: Stamp,
)
    requires
        ids_unique(s),
        now.before(until),
    ensures
        spec_suggest(skip_in(s, id, until), available, now) != Suggestion::Fits(id),
{
    let t = skip_in(s, id, until);
    let n = t.len() as int;
    if pool_nonempty(t, Pool::Open, available, now) && pool_nonempty(t, Pool::Fitting, available, now)
        && pool_nonempty(t, Pool::Ready, available, now) {
        lemma_first_best_exists(t, n, available, now);
        let k = choose|k: int| first_best(t, n, available, now, k);
        match locate(s, id) {
            Some(i) => {
                let f = choose|f: int| is_first_with_id(s, id, f);
                assert(is_first_with_id(s, id, f));
                assert(f == i);
                assert(!is_due(t[i], now));
                assert(k != i);
                assert(t[k] == s[k]);
                assert(s[k].id != s[i].id);
            },
            None => {
                assert(t == s);
                if s[k].id == id {
                    assert(is_first_with_id(s, id, k) || exists|j: int| 0 <= j < k && s[j].id == id);
                    if is_first_with_id(s, id, k) {
                    } else {
                        let j = choose|j: int| 0 <= j < k && s[j].id == id;
                        assert(s[j].id == s[k].id);
                    }
                }
            },
        }
    }
}

/// Where each element of `s.filter(p)` stands in `s`: an increasing list of
/// positions that covers every position whose element passes `p`.
pub proof fn lemma_filter_positions(s: Seq<Task>, p: spec_fn(Task) -> bool) -> (g: Seq<int>)
    ensures
        g.len() == s.filter(p).len(),
        forall|j: int|
            0 <= j < g.len() ==> 0 <= #[trigger] g[j] < s.len() && s.filter(p)[j] == s[g[j]],
        forall|j: int, k: int| 0 <= j < k < g.len() ==> #[trigger] g[j] < #[trigger] g[k],
        forall|i: int|
            0 <= i < s.len() && p(#[trigger] s[i]) ==> exists|j: int| 0 <= j < g.len() && g[j] == i,
    decreases s.len(),
{
    reveal(Seq::filter);
    if s.len() == 0 {
        Seq::empty()
    } else {
        let d = s.drop_last();
        let h = lemma_filter_positions(d, p);
        let last = s.len() - 1;
        assert forall|i: int| 0 <= i < last implies #[trigger] d[i] == s[i] by {}
        if p(s.last()) {
            let g = h.push(last);
            assert forall|j: int|
                0 <= j < g.len() implies 0 <= #[trigger] g[j] < s.len() && s.filter(p)[j] == s[g[j]] by {
                if j < h.len() {
                    assert(d[h[j]] == s[h[j]]);
                }
            }
            assert forall|i: int| 0 <= i < s.len() && p(#[trigger] s[i]) implies exists|j: int|
                0 <= j < g.len() && g[j] == i by {
                if i < last {
                    assert(p(d[i]));
                    let j = choose|j: int| 0 <= j < h.len() && h[j] == i;
                    assert(g[j] == i);
                } else {
                    assert(g[h.len() as int] == i);
                }
            }
            g
        } else {
            assert forall|j: int|
                0 <= j < h.len() implies 0 <= #[trigger] h[j] < s.len() && s.filter(p)[j] == s[h[j]] by {
                assert(d[h[j]] == s[h[j]]);
            }
            assert forall|i: int| 0 <= i < s.len() && p(#[trigger] s[i]) implies exists|j: int|
                0 <= j < h.len() && h[j] == i by {
                assert(i < last);
                assert(p(d[i]));
            }
            h
        }
    }
}

/// The first shortest task of a pool stays the first shortest once tasks
/// it does not need are filtered out around it.
proof fn lemma_first_shortest_filtered(
    s: Seq<Task>,
    p: spec_fn(Task) -> bool,
    g: Seq<int>,
    pool: Pool,
    available: u32,
    now: Stamp,
    i: int,
    k: int,
)
    requires
        g.len() == s.filter(p).len(),
        forall|j: int|
            0 <= j < g.len() ==> 0 <= #[trigger] g[j] < s.len() && s.filter(p)[j] == s[g[j]],
        forall|j: int, l: int| 0 <= j < l < g.len() ==> #[trigger] g[j] < #[trigger] g[l],
        first_shortest(s, s.len() as int, pool, available, now, i),
        0 <= k < g.len(),
        g[k] == i,
    ensures
        first_shortest(s.filter(p), g.len() as int, pool, available, now, k),
{
    let c = s.filter(p);
    assert(c[k] == s[i]);
    assert forall|j: int| 0 <= j < g.len() && in_pool(#[trigger] c[j], pool, available, now)
        implies !shorter(c[j], c[k]) by {
        assert(c[j] == s[g[j]]);
        assert(in_pool(s[g[j]], pool, available, now));
    }
    assert forall|j: int| 0 <= j < k && in_pool(#[trigger] c[j], pool, available, now)
        implies shorter(c[k], c[j]) by {
        assert(c[j] == s[g[j]]);
        assert(g[j] < g[k]);
        assert(in_pool(s[g[j]], pool, available, now));
    }
}

/// The first best ready task stays the first best once tasks it does not
/// need are filtered out around it.
proof fn lemma_first_best_filtered(
    s: Seq<Task>,
    p: spec_fn(Task) -> bool,
    g: Seq<int>,
    available: u32,
    now: Stamp,
    i: int,
    k: int,
)
    requires
        g.len() == s.filter(p).len(),
        forall|j: int|
            0 <= j < g.len() ==> 0 <= #[trigger] g[j] < s.len() && s.filter(p)[j] == s[g[j]],
        forall|j: int, l: int| 0 <= j < l < g.len() ==> #[trigger] g[j] < #[trigger] g[l],
        first_best(s, s.len() as int, available, now, i),
        0 <= k < g.len(),
        g[k] == i,
    ensures
        first_best(s.filter(p), g.len() as int, available, now, k),
{
    let c = s.filter(p);
    assert(c[k] == s[i]);
    assert forall|j: int| 0 <= j < g.len() && in_pool(#[trigger] c[j], Pool::Ready, available, now)
        implies !ranks_ahead(c[j], c[k], available) by {
        assert(c[j] == s[g[j]]);
        assert(in_pool(s[g[j]], Pool::Ready, available, now));
    }
    assert forall|j: int| 0 <= j < k && in_pool(#[trigger] c[j], Pool::Ready, available, now)
        implies ranks_ahead(c[k], c[j], available) by {
        assert(c[j] == s[g[j]]);
        assert(g[j] < g[k]);
        assert(in_pool(s[g[j]], Pool::Ready, available, now));
    }
}

/// Filtering out tasks leaves the suggestion as it was, as long as the
/// filter keeps the open task that the suggestion names.
pub proof fn lemma_filter_keeps_suggestion(
    s: Seq<Task>,
    p: spec_fn(Task) -> bool,
    available: u32,
    now: Stamp,
)
    requires
        forall|k: int|
            0 <= k < s.len() && !(#[trigger] s[k]).done && names(
                spec_suggest(s, available, now),
                s[k].id,
            ) ==> p(s[k]),
    ensures
        spec_suggest(s.filter(p), available, now) == spec_suggest(s, available, now),
{
    let c = s.filter(p);
    let g = lemma_filter_positions(s, p);
    let n = s.len() as int;
    let m = c.len() as int;
    assert forall|pool: Pool| pool_nonempty(c, pool, available, now) implies pool_nonempty(
        s,
        pool,
        available,
        now,
    ) by {
        let j = choose|j: int| 0 <= j < c.len() && in_pool(#[trigger] c[j], pool, available, now);
        assert(c[j] == s[g[j]]);
    }
    if !pool_nonempty(s, Pool::Open, available, now) {
        assert(!pool_nonempty(c, Pool::Open, available, now));
    } else if !pool_nonempty(s, Pool::Fitting, available, now) {
        assert(!pool_nonempty(c, Pool::Fitting, available, now));
        lemma_first_shortest_exists(s, n, Pool::Open, available, now);
        let i = choose|i: int| first_shortest(s, n, Pool::Open, available, now, i);
        assert(names(spec_suggest(s, available, now), s[i].id));
        assert(p(s[i]));
        let k = choose|k: int| 0 <= k < g.len() && g[k] == i;
        lemma_first_shortest_filtered(s, p, g, Pool::Open, available, now, i, k);
        assert(in_pool(c[k], Pool::Open, available, now));
        let k2 = choose|k2: int| first_shortest(c, m, Pool::Open, available, now, k2);
        lemma_first_shortest_unique(c, m, Pool::Open, available, now, k, k2);
    } else if pool_nonempty(s, Pool::Ready, available, now) {
        lemma_first_best_exists(s, n, available, now);
        let i = choose|i: int| first_best(s, n, available, now, i);
        assert(names(spec_suggest(s, available, now), s[i].id));
        assert(p(s[i]));
        let k = choose|k: int| 0 <= k < g.len() && g[k] == i;
        lemma_first_best_filtered(s, p, g, available, now, i, k);
        assert(in_pool(c[k], Pool::Open, available, now));
        assert(in_pool(c[k], Pool::Fitting, available, now));
        assert(in_pool(c[k], Pool::Ready, available, now));
        let k2 = choose|k2: int| first_best(c, m, available, now, k2);
        lemma_first_best_unique(c, m, available, now, k, k2);
    } else {
        assert(!pool_nonempty(c, Pool::Ready, available, now));
        lemma_first_shortest_exists(s, n, Pool::Fitting, available, now);
        let i = choose|i: int| first_shortest(s, n, Pool::Fitting, available, now, i);
        assert(names(spec_suggest(s, available, now), s[i].id));
        assert(p(s[i]));
        let k = choose|k: int| 0 <= k < g.len() && g[k] == i;
        lemma_first_shortest_filtered(s, p, g, Pool::Fitting, available, now, i, k);
        assert(in_pool(c[k], Pool::Open, available, now));
        assert(in_pool(c[k], Pool::Fitting, available, now));
        let k2 = choose|k2: int| first_shortest(c, m, Pool::Fitting, available, now, k2);
        lemma_first_shortest_unique(c, m, Pool::Fitting, available, now, k, k2);
    }
}

/// Clearing the completed tasks does not change what is suggested.
pub proof fn law_clear_keeps_suggestion(s: Seq<Task>, available: u32, now: Stamp)
    ensures
        spec_suggest(s.filter(still_open()), available, now) == spec_suggest(s, available, now),
{
    lemma_filter_keeps_suggestion(s, still_open(), available, now);
}

/// Deleting an id that the suggestion does not name does not change what
/// is suggested.
pub proof fn law_delete_keeps_suggestion(s: Seq<Task>, id: u128, available: u32, now: Stamp)
    requires
        !names(spec_suggest(s, available, now), id),
    ensures
        spec_suggest(s.filter(other_than(id)), available, now) == spec_suggest(s, available, now),
{
    lemma_filter_keeps_suggestion(s, other_than(id), available, now);
}

/// A task just marked done is not suggested any more (ids being unique).
pub proof fn law_done_not_suggested(s: Seq<Task>, id: u128, at: Stamp, available: u32, now: Stamp)
    requires
        ids_unique(s),
        locate(s, id) matches Some(i) && !s[i].done,
    ensures
        !names(spec_suggest(toggle_in(s, id, at), available, now), id),
{
    let t = toggle_in(s, id, at);
    let i = locate(s, id)->Some_0;
    let f = choose|f: int| is_first_with_id(s, id, f);
    assert(is_first_with_id(s, id, f));
    assert(f == i);
    assert(t[i].done);
    law_suggestion_sound(t, available, now);
    if names(spec_suggest(t, available, now), id) {
        let w = choose|w: int| 0 <= w < t.len() && #[trigger] t[w].id == id && !t[w].done;
        assert(t[w].id == id);
        assert(w != i);
        assert(t[w] == s[w]);
        assert(s[w].id != s[i].id);
    }
}

/// Toggling, skipping, deleting and clearing keep every task tidy: titles
/// trimmed and not blank, estimates of at least one minute.
pub proof fn law_tidy_kept(s: Seq<Task>, id: u128, at: Stamp, until: Stamp)
    requires
        all_tidy(s),
    ensures
        all_tidy(toggle_in(s, id, at)),
        all_tidy(skip_in(s, id, until)),
        all_tidy(s.filter(other_than(id))),
        all_tidy(s.filter(still_open())),
{
    assert forall|j: int| 0 <= j < toggle_in(s, id, at).len() implies is_tidy(
        #[trigger] toggle_in(s, id, at)[j],
    ) by {
        assert(is_tidy(s[j]));
    }
    assert forall|j: int| 0 <= j < skip_in(s, id, until).len() implies is_tidy(
        #[trigger] skip_in(s, id, until)[j],
    ) by {
        assert(is_tidy(s[j]));
    }
    lemma_filter_tidy(s, other_than(id));
    lemma_filter_tidy(s, still_open());
}

/// Filtering keeps every task tidy.
proof fn lemma_filter_tidy(s: Seq<Task>, p: spec_fn(Task) -> bool)
    requires
        all_tidy(s),
    ensures
        all_tidy(s.filter(p)),
{
    let g = lemma_filter_positions(s, p);
    assert forall|j: int| 0 <= j < s.filter(p).len() implies is_tidy(#[trigger] s.filter(p)[j]) by {
        assert(s.filter(p)[j] == s[g[j]]);
    }
}

/// The task could be started now: it is not done, its estimate is within
/// the `available` minutes (an estimate equal to them included), and any
/// skip it carries has run out by `now`.
pub open spec fn can_start(t: Task, available: u32, now: Stamp) -> bool {
    &&& !t.done
    &&& t.estimated_minutes <= available
    &&& match t.skipped_until {
        None => true,
        Some(u) => u.secs < now.secs || (u.secs == now.secs && u.nanos <= now.nanos),
    }
}

/// `can_start` is membership in the ready pool.
proof fn lemma_can_start_is_ready(t: Task, available: u32, now: Stamp)
    ensures
        can_start(t, available, now) == in_pool(t, Pool::Ready, available, now),
{
}

/// The suggestion is `Fits` exactly when some task could be started now,
/// and it then names such a task that none other beats: no other task that
/// could be started has a higher priority; among those of the same priority
/// none is longer, so the least free time is left over; among those of the
/// same priority and length none is older; and every task before it in the
/// list is beaten by it outright.
pub proof fn law_fits_picks_the_best_startable(s: Seq<Task>, available: u32, now: Stamp)
    ensures
        (exists|j: int| 0 <= j < s.len() && can_start(#[trigger] s[j], available, now)) == (
        spec_suggest(s, available, now) is Fits),
        spec_suggest(s, available, now) matches Suggestion::Fits(x) ==> exists|i: int|
            0 <= i < s.len() && #[trigger] s[i].id == x && can_start(s[i], available, now)
                && forall|j: int|
                0 <= j < s.len() && can_start(#[trigger] s[j], available, now) ==> {
                    &&& s[j].priority.level() <= s[i].priority.level()
                    &&& s[j].priority == s[i].priority ==> s[j].estimated_minutes
                        <= s[i].estimated_minutes
                    &&& s[j].priority == s[i].priority && s[j].estimated_minutes
                        == s[i].estimated_minutes ==> !s[j].created_at.before(s[i].created_at)
                    &&& j < i ==> (s[j].priority.level() < s[i].priority.level() || (
                    s[j].priority == s[i].priority && s[j].estimated_minutes
                        < s[i].estimated_minutes) || (s[j].priority == s[i].priority
                        && s[j].estimated_minutes == s[i].estimated_minutes
                        && s[i].created_at.before(s[j].created_at)))
                },
{
    let n = s.len() as int;
    assert forall|j: int| 0 <= j < s.len() implies can_start(#[trigger] s[j], available, now)
        == in_pool(s[j], Pool::Ready, available, now) by {
        lemma_can_start_is_ready(s[j], available, now);
    }
    if exists|j: int| 0 <= j < s.len() && can_start(#[trigger] s[j], available, now) {
        let w = choose|j: int| 0 <= j < s.len() && can_start(#[trigger] s[j], available, now);
        assert(in_pool(s[w], Pool::Ready, available, now));
        assert(in_pool(s[w], Pool::Fitting, available, now));
        assert(in_pool(s[w], Pool::Open, available, now));
        assert(pool_nonempty(s, Pool::Ready, available, now));
        assert(pool_nonempty(s, Pool::Fitting, available, now));
        assert(pool_nonempty(s, Pool::Open, available, now));
        lemma_first_best_exists(s, n, available, now);
        let i = choose|i: int| first_best(s, n, available, now, i);
        assert(spec_suggest(s, available, now) == Suggestion::Fits(s[i].id));
        assert forall|j: int| 0 <= j < s.len() && can_start(#[trigger] s[j], available, now) implies {
            &&& s[j].priority.level() <= s[i].priority.level()
            &&& s[j].priority == s[i].priority ==> s[j].estimated_minutes <= s[i].estimated_minutes
            &&& s[j].priority == s[i].priority && s[j].estimated_minutes == s[i].estimated_minutes
                ==> !s[j].created_at.before(s[i].created_at)
            &&& j < i ==> (s[j].priority.level() < s[i].priority.level() || (s[j].priority
                == s[i].priority && s[j].estimated_minutes < s[i].estimated_minutes) || (
            s[j].priority == s[i].priority && s[j].estimated_minutes == s[i].estimated_minutes
                && s[i].created_at.before(s[j].created_at)))
        } by {
            assert(in_pool(s[j], Pool::Ready, available, now));
            assert(!ranks_ahead(s[j], s[i], available));
            if j < i {
                assert(ranks_ahead(s[i], s[j], available));
            }
        }
    } else {
        if spec_suggest(s, available, now) is Fits {
            assert(pool_nonempty(s, Pool::Ready, available, now));
            let j = choose|j: int|
                0 <= j < s.len() && in_pool(#[trigger] s[j], Pool::Ready, available, now);
            assert(can_start(s[j], available, now));
        }
    }
}

/// When nothing can be started now, the suggestion tells why. `Fallback`
/// comes only when every open task is longer than the free time, and names
/// an open task that no open task is shorter than. `FitsSkipped` names an
/// open task within the free time that no such task is shorter than, and
/// every open task within the free time is then still skipped at `now`.
pub proof fn law_fallback_and_skipped(s: Seq<Task>, available: u32, now: Stamp)
    ensures
        spec_suggest(s, available, now) matches Suggestion::Fallback(x) ==> exists|i: int|
            0 <= i < s.len() && #[trigger] s[i].id == x && !s[i].done && forall|j: int|
                0 <= j < s.len() && !(#[trigger] s[j]).done ==> s[j].estimated_minutes > available
                    && s[j].estimated_minutes >= s[i].estimated_minutes,
        spec_suggest(s, available, now) matches Suggestion::FitsSkipped(x) ==> exists|i: int|
            0 <= i < s.len() && #[trigger] s[i].id == x && !s[i].done && s[i].estimated_minutes
                <= available && forall|j: int|
                0 <= j < s.len() && !(#[trigger] s[j]).done && s[j].estimated_minutes <= available
                    ==> !can_start(s[j], available, now) && s[j].estimated_minutes
                    >= s[i].estimated_minutes,
{
    law_suggestion_sound(s, available, now);
    assert forall|j: int| 0 <= j < s.len() implies can_start(#[trigger] s[j], available, now)
        == in_pool(s[j], Pool::Ready, available, now) by {
        lemma_can_start_is_ready(s[j], available, now);
    }
}

/// A new task's estimate is the minutes asked for, or one minute when zero
/// were asked for: it is never cut down or made longer otherwise.
pub proof fn law_new_task_estimate(minutes: u32)
    ensures
        minutes >= 1 ==> at_least_one(minutes) == minutes,
        at_least_one(0) == 1,
{
}

} // verus!
