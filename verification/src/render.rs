//! The listing a user sees: one line per task, or a placeholder when the
//! store is empty.

use vstd::prelude::*;
use vstd::string::StringExecFns;

use crate::codec::spec_encode_u32;
use crate::encode::push_char;
use crate::encode::push_decimal;
use crate::task::Task;
use crate::task::TaskView;
use crate::task::views_of;

verus! {

/// The id column is three characters wide, padded with blanks on the left.
pub open spec fn spec_pad3(ds: Seq<char>) -> Seq<char> {
    if ds.len() >= 3 {
        ds
    } else if ds.len() == 2 {
        seq![' '] + ds
    } else {
        seq![' ', ' '] + ds
    }
}

/// One listing line: the padded id, a bracketed done mark, and the text.
pub open spec fn spec_render_line(t: TaskView) -> Seq<char> {
    spec_pad3(spec_encode_u32(t.id)) + ". ["@ + (if t.done {
        seq!['\u{2714}']
    } else {
        seq![' ']
    }) + "] "@ + t.text
}

/// What `list` prints, line by line.
pub open spec fn spec_no_tasks_msg() -> Seq<char> {
    "(no tasks)"@
}

/// The whole listing: the placeholder alone on an empty store, else one
/// line per task in store order.
pub open spec fn spec_list_lines(ts: Seq<TaskView>) -> Seq<Seq<char>> {
    if ts.len() == 0 {
        seq![spec_no_tasks_msg()]
    } else {
        ts.map_values(|t: TaskView| spec_render_line(t))
    }
}

/// A number below ten prints as one digit, below a hundred as two, and so
/// on; the padding rule below depends on it.
proof fn lemma_encode_u32_len(n: u32)
    ensures
        (spec_encode_u32(n).len() == 1) == (n < 10),
        (spec_encode_u32(n).len() == 2) == (10 <= n && n < 100),
        (spec_encode_u32(n).len() >= 3) == (n >= 100),
    decreases n,
{
    if n >= 10 {
        lemma_encode_u32_len(n / 10);
    }
}

fn render_line(t: &Task) -> (r: String)
    ensures
        r@ == spec_render_line(t@),
{
    let mut out = String::new();
    proof {
        lemma_encode_u32_len(t.id);
    }
    if t.id < 10 {
        out.append("  ");
        proof {
            reveal_strlit("  ");
        }
    } else if t.id < 100 {
        out.append(" ");
        proof {
            reveal_strlit(" ");
        }
    }
    push_decimal(t.id, &mut out);
    proof {
        assert(out@ =~= spec_pad3(spec_encode_u32(t.id as u32)));
    }
    out.append(". [");
    if t.done {
        push_char(&mut out, '\u{2714}');
    } else {
        push_char(&mut out, ' ');
    }
    out.append("] ");
    out.append(t.text.as_str());
    proof {
        assert(out@ =~= spec_render_line(t@));
    }
    out
}

/// The lines `list` prints for a store: never silent, the placeholder
/// stands in for an empty store.
pub fn list_lines(tasks: &Vec<Task>) -> (r: Vec<String>)
    ensures
        r@.len() == spec_list_lines(views_of(tasks@)).len(),
        forall|i: int|
            0 <= i < r@.len() ==> r@[i]@ == #[trigger] spec_list_lines(views_of(tasks@))[i],
        tasks@.len() == 0 ==> r@.len() == 1 && r@[0]@ == spec_no_tasks_msg(),
        tasks@.len() > 0 ==> r@.len() == tasks@.len(),
{
    let ghost vs = views_of(tasks@);
    if tasks.len() == 0 {
        let mut r: Vec<String> = Vec::new();
        r.push("(no tasks)".to_owned());
        return r;
    }
    let mut r: Vec<String> = Vec::new();
    let mut i: usize = 0;
    while i < tasks.len()
        invariant
            0 <= i <= tasks@.len(),
            tasks@.len() > 0,
            vs == views_of(tasks@),
            r@.len() == i,
            forall|j: int| 0 <= j < i ==> r@[j]@ == #[trigger] spec_render_line(vs[j]),
        decreases tasks@.len() - i,
    {
        let line = render_line(&tasks[i]);
        r.push(line);
        i = i + 1;
    }
    proof {
        assert(forall|j: int|
            0 <= j < vs.len() ==> spec_list_lines(vs)[j] == #[trigger] spec_render_line(vs[j]));
    }
    r
}

} // verus!
