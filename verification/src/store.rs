//! Mutations of the task store: add, mark done, remove, clear.
//!
//! Each operation's contract relates the new sequence of task views to the
//! old one, so the store's whole history is pinned down by these functions.

use vstd::prelude::*;

use crate::task::Task;
use crate::task::TaskView;
use crate::task::lemma_max_id_bounds;
use crate::task::next_id;
use crate::task::spec_max_id;
use crate::task::spec_next_id;
use crate::task::views_of;

verus! {

/// The store after an addition: the new task is appended, carries the next
/// id, and starts not done.
pub open spec fn spec_add(ts: Seq<TaskView>, text: Seq<char>) -> Seq<TaskView> {
    ts.push(TaskView { id: spec_next_id(ts) as u32, text, done: false })
}

/// Whether some task in the store carries the given id.
pub open spec fn spec_has_id(ts: Seq<TaskView>, id: u32) -> bool {
    exists|i: int| 0 <= i < ts.len() && #[trigger] ts[i].id == id
}

/// The smallest index whose task carries the given id, if any.
pub open spec fn spec_find(ts: Seq<TaskView>, id: u32) -> Option<int>
    decreases ts.len(),
{
    if ts.len() == 0 {
        None
    } else if ts.first().id == id {
        Some(0)
    } else {
        match spec_find(ts.drop_first(), id) {
            None => None,
            Some(k) => Some(k + 1),
        }
    }
}

/// What `spec_find` returns: the index of the first task with the id, or
/// `None` when no task carries it.
pub proof fn lemma_find_characterizes(ts: Seq<TaskView>, id: u32)
    ensures
        match spec_find(ts, id) {
            Some(k) => 0 <= k < ts.len() && ts[k].id == id && forall|j: int|
                0 <= j < k ==> #[trigger] ts[j].id != id,
            None => forall|j: int| 0 <= j < ts.len() ==> #[trigger] ts[j].id != id,
        },
    decreases ts.len(),
{
    if ts.len() > 0 && ts.first().id != id {
        let rest = ts.drop_first();
        lemma_find_characterizes(rest, id);
        match spec_find(rest, id) {
            None => {
                assert forall|j: int| 0 <= j < ts.len() implies #[trigger] ts[j].id != id by {
                    if j >= 1 {
                        assert(ts[j] == rest[j - 1]);
                        assert(rest[j - 1].id != id);
                    }
                }
            },
            Some(k) => {
                assert(ts[k + 1] == rest[k]);
                assert forall|j: int| 0 <= j < k + 1 implies #[trigger] ts[j].id != id by {
                    if j >= 1 {
                        assert(ts[j] == rest[j - 1]);
                        assert(rest[j - 1].id != id);
                    }
                }
            },
        }
    }
}

/// The first index with the id is the only index `spec_find` can return.
pub proof fn lemma_find_unique(ts: Seq<TaskView>, id: u32, k: int)
    requires
        0 <= k < ts.len(),
        ts[k].id == id,
        forall|j: int| 0 <= j < k ==> #[trigger] ts[j].id != id,
    ensures
        spec_find(ts, id) == Some(k),
{
    lemma_find_characterizes(ts, id);
    match spec_find(ts, id) {
        None => {
            assert(ts[k].id != id);
        },
        Some(m) => {
            if m < k {
                assert(ts[m].id != id);
            }
            if k < m {
                assert(ts[k].id != id);
            }
        },
    }
}

/// The task view with its done flag raised.
pub open spec fn spec_marked(t: TaskView) -> TaskView {
    TaskView { id: t.id, text: t.text, done: true }
}

/// The store after marking the given id done: the first task with that id
/// has `done == true`, everything else is untouched; a miss changes nothing.
pub open spec fn spec_mark_done(ts: Seq<TaskView>, id: u32) -> Seq<TaskView> {
    match spec_find(ts, id) {
        None => ts,
        Some(k) => ts.update(k, spec_marked(ts[k])),
    }
}

/// The store after a removal: every task with the given id is gone, the
/// rest keep their order.
pub open spec fn spec_remove(ts: Seq<TaskView>, id: u32) -> Seq<TaskView> {
    ts.filter(|t: TaskView| t.id != id)
}

/// Appends a fresh task with the next id and returns that id.
pub fn add(tasks: &mut Vec<Task>, text: String) -> (id: u32)
    requires
        spec_max_id(views_of(old(tasks)@)) < u32::MAX,
    ensures
        id == spec_next_id(views_of(old(tasks)@)),
        views_of(final(tasks)@) == spec_add(views_of(old(tasks)@), text@),
{
    let id = next_id(tasks);
    let ghost old_views = views_of(tasks@);
    tasks.push(Task { id, text, done: false });
    proof {
        assert(views_of(tasks@) =~= spec_add(old_views, tasks@.last().text@));
    }
    id
}

/// Marks the first task with the given id as done; reports whether one was
/// found. Marking an already-done task succeeds again and leaves it done.
pub fn mark_done(tasks: &mut Vec<Task>, id: u32) -> (found: bool)
    ensures
        found == spec_has_id(views_of(old(tasks)@), id),
        views_of(final(tasks)@) == spec_mark_done(views_of(old(tasks)@), id),
{
    let ghost vs = views_of(old(tasks)@);
    let mut i: usize = 0;
    while i < tasks.len()
        invariant
            0 <= i <= tasks@.len(),
            vs == views_of(tasks@),
            vs == views_of(old(tasks)@),
            forall|j: int| 0 <= j < i ==> #[trigger] vs[j].id != id,
        decreases tasks@.len() - i,
    {
        if tasks[i].id == id {
            let text = tasks[i].text.clone();
            let ghost pre = tasks@;
            let ghost tv = text@;
            proof {
                assert(vs[i as int] == pre[i as int]@);
                assert(vs[i as int].id == id);
                assert(tv == vs[i as int].text);
                lemma_find_unique(vs, id, i as int);
                assert(spec_has_id(vs, id));
            }
            tasks.set(i, Task { id, text, done: true });
            proof {
                assert(tasks@[i as int]@ == spec_marked(vs[i as int]));
                assert forall|j: int| 0 <= j < tasks@.len() implies #[trigger] views_of(tasks@)[j]
                    == vs.update(i as int, spec_marked(vs[i as int]))[j] by {
                    assert(views_of(tasks@)[j] == tasks@[j]@);
                    if j != i {
                        assert(tasks@[j] == pre[j]);
                        assert(vs[j] == pre[j]@);
                    }
                }
                assert(views_of(tasks@) =~= vs.update(i as int, spec_marked(vs[i as int])));
            }
            return true;
        }
        i = i + 1;
    }
    proof {
        lemma_find_characterizes(vs, id);
        assert(!spec_has_id(vs, id));
    }
    false
}

/// Removes every task with the given id; reports whether any was present.
pub fn remove(tasks: &mut Vec<Task>, id: u32) -> (removed: bool)
    ensures
        removed == spec_has_id(views_of(old(tasks)@), id),
        views_of(final(tasks)@) == spec_remove(views_of(old(tasks)@), id),
{
    let ghost vs = views_of(old(tasks)@);
    let mut kept: Vec<Task> = Vec::new();
    let mut found = false;
    let mut i: usize = 0;
    while i < tasks.len()
        invariant
            0 <= i <= tasks@.len(),
            vs == views_of(tasks@),
            views_of(kept@) == vs.take(i as int).filter(|t: TaskView| t.id != id),
            found == exists|j: int| 0 <= j < i && #[trigger] vs[j].id == id,
        decreases tasks@.len() - i,
    {
        proof {
            assert(vs.take(i + 1).drop_last() =~= vs.take(i as int));
            assert(vs.take(i + 1).last() == vs[i as int]);
            reveal_with_fuel(Seq::filter, 2);
        }
        if tasks[i].id == id {
            found = true;
            proof {
                assert(vs.take(i + 1).filter(|t: TaskView| t.id != id)
                    =~= vs.take(i as int).filter(|t: TaskView| t.id != id));
            }
        } else {
            let t = Task { id: tasks[i].id, text: tasks[i].text.clone(), done: tasks[i].done };
            proof {
                assert(t@ == vs[i as int]);
            }
            kept.push(t);
            proof {
                assert(vs.take(i + 1).filter(|t: TaskView| t.id != id)
                    =~= vs.take(i as int).filter(|t: TaskView| t.id != id).push(vs[i as int]));
                assert(views_of(kept@) =~= vs.take(i + 1).filter(|t: TaskView| t.id != id));
            }
        }
        i = i + 1;
    }
    proof {
        assert(vs.take(vs.len() as int) =~= vs);
    }
    *tasks = kept;
    found
}

/// Empties the store.
pub fn clear(tasks: &mut Vec<Task>)
    ensures
        views_of(final(tasks)@) =~= Seq::<TaskView>::empty(),
        final(tasks)@.len() == 0,
{
    tasks.clear();
}

/// Ids only grow: the id assigned by an addition exceeds every id already in
/// the store, and the next addition is assigned exactly one more, so over
/// any run of additions the assigned ids are strictly increasing and each is
/// one more than the largest id seen so far. Removals never lower the
/// largest id below a surviving id, so a removed id is never handed out
/// again.
pub proof fn lemma_add_ids_monotone(ts: Seq<TaskView>, text: Seq<char>)
    requires
        spec_max_id(ts) < u32::MAX,
    ensures
        forall|i: int| 0 <= i < ts.len() ==> #[trigger] ts[i].id < spec_next_id(ts),
        spec_next_id(spec_add(ts, text)) == spec_next_id(ts) + 1,
{
    lemma_max_id_bounds(ts);
    let ts2 = spec_add(ts, text);
    assert(ts2.drop_last() =~= ts);
    assert(ts2.last().id == spec_max_id(ts) + 1);
    assert(spec_max_id(ts2) == spec_max_id(ts) + 1);
}

/// Marking a task done is idempotent: marking an id that is already done
/// succeeds again and leaves the store exactly as it was after the first
/// marking.
pub proof fn lemma_mark_done_idempotent(ts: Seq<TaskView>, id: u32)
    ensures
        spec_mark_done(spec_mark_done(ts, id), id) == spec_mark_done(ts, id),
        spec_has_id(spec_mark_done(ts, id), id) == spec_has_id(ts, id),
{
    lemma_find_characterizes(ts, id);
    match spec_find(ts, id) {
        None => {
            assert(!spec_has_id(ts, id));
        },
        Some(k) => {
            let ts2 = spec_mark_done(ts, id);
            assert(ts2[k].id == id);
            assert(forall|j: int| 0 <= j < k ==> #[trigger] ts2[j].id == ts[j].id);
            lemma_find_unique(ts2, id, k);
            assert(spec_mark_done(ts2, id) =~= ts2);
            assert(spec_has_id(ts, id));
            assert(spec_has_id(ts2, id));
        },
    }
}

} // verus!
