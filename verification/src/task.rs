//! The task record and id assignment.

use vstd::prelude::*;

verus! {

/// One to-do item: a unique numeric id, an arbitrary text, and a done flag.
#[derive(Debug)]
pub struct Task {
    pub id: u32,
    pub text: String,
    pub done: bool,
}

/// The mathematical image of a [`Task`]: the text as a sequence of characters.
pub ghost struct TaskView {
    pub id: u32,
    pub text: Seq<char>,
    pub done: bool,
}

impl View for Task {
    type V = TaskView;

    open spec fn view(&self) -> TaskView {
        TaskView { id: self.id, text: self.text@, done: self.done }
    }
}

/// The views of the tasks in a sequence, in order.
pub open spec fn views_of(ts: Seq<Task>) -> Seq<TaskView> {
    ts.map_values(|t: Task| t@)
}

/// The largest id in the store, or `0` if the store is empty.
pub open spec fn spec_max_id(ts: Seq<TaskView>) -> u32
    decreases ts.len(),
{
    if ts.len() == 0 {
        0
    } else {
        let rest = spec_max_id(ts.drop_last());
        if ts.last().id > rest {
            ts.last().id
        } else {
            rest
        }
    }
}

/// The id the next added task receives: one more than the largest id
/// present, so `1` on an empty store. Ids are never reused: deletions do
/// not lower the maximum of the ids that remain... they only remove ids
/// below it or expose a smaller one, never a larger one, so ids assigned
/// by successive additions strictly increase.
pub open spec fn spec_next_id(ts: Seq<TaskView>) -> int {
    spec_max_id(ts) + 1
}

/// The largest id bounds every id in the store.
pub proof fn lemma_max_id_bounds(ts: Seq<TaskView>)
    ensures
        forall|i: int| 0 <= i < ts.len() ==> #[trigger] ts[i].id <= spec_max_id(ts),
    decreases ts.len(),
{
    if ts.len() > 0 {
        lemma_max_id_bounds(ts.drop_last());
        assert forall|i: int| 0 <= i < ts.len() implies #[trigger] ts[i].id <= spec_max_id(ts) by {
            if i < ts.len() - 1 {
                assert(ts.drop_last()[i] == ts[i]);
                assert(ts.drop_last()[i].id <= spec_max_id(ts.drop_last()));
            }
        }
    }
}

/// The id assigned to the next added task.
pub fn next_id(tasks: &Vec<Task>) -> (r: u32)
    requires
        spec_max_id(views_of(tasks@)) < u32::MAX,
    ensures
        r == spec_next_id(views_of(tasks@)),
        forall|i: int| 0 <= i < tasks@.len() ==> #[trigger] views_of(tasks@)[i].id < r,
{
    let ghost vs = views_of(tasks@);
    let mut max: u32 = 0;
    let mut i: usize = 0;
    while i < tasks.len()
        invariant
            0 <= i <= tasks@.len(),
            vs == views_of(tasks@),
            spec_max_id(vs) < u32::MAX,
            max == spec_max_id(vs.take(i as int)),
        decreases tasks@.len() - i,
    {
        proof {
            assert(vs.take(i + 1).drop_last() =~= vs.take(i as int));
            assert(vs.take(i + 1).last() == vs[i as int]);
        }
        if tasks[i].id > max {
            max = tasks[i].id;
        }
        i = i + 1;
    }
    proof {
        assert(vs.take(vs.len() as int) =~= vs);
        lemma_max_id_bounds(vs);
    }
    max + 1
}

} // verus!
