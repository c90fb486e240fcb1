//! One command against the store: the in-memory mutation, whether the
//! store must be written back, and what is printed.

use vstd::prelude::*;
use vstd::string::StringExecFns;

use crate::codec::spec_encode_u32;
use crate::encode::push_decimal;
use crate::render::list_lines;
use crate::render::spec_list_lines;
use crate::store::clear;
use crate::store::mark_done;
use crate::store::remove;
use crate::store::spec_add;
use crate::store::spec_has_id;
use crate::store::spec_mark_done;
use crate::store::spec_remove;
use crate::task::Task;
use crate::task::TaskView;
use crate::task::spec_max_id;
use crate::task::views_of;

verus! {

/// One invocation's verb and argument, already well-typed.
pub enum Command {
    Add(String),
    List,
    Done(u32),
    Rm(u32),
    Clear,
}

pub open spec fn spec_added_msg() -> Seq<char> {
    "\u{2713} added"@
}

pub open spec fn spec_done_msg() -> Seq<char> {
    "\u{2713} marked as done"@
}

pub open spec fn spec_removed_msg() -> Seq<char> {
    "\u{2713} removed"@
}

pub open spec fn spec_cleared_msg() -> Seq<char> {
    "\u{2713} cleared"@
}

/// The message for `done` or `rm` on an id no task carries; a normal
/// outcome, not an error.
pub open spec fn spec_missing_msg(id: u32) -> Seq<char> {
    "no task with id "@ + spec_encode_u32(id)
}

fn missing_msg(id: u32) -> (r: String)
    ensures
        r@ == spec_missing_msg(id),
{
    let mut out = String::new();
    out.append("no task with id ");
    push_decimal(id, &mut out);
    proof {
        assert(out@ =~= spec_missing_msg(id));
    }
    out
}

/// Applies one command to the loaded store. Returns whether the store was
/// mutated and must be saved, and the lines to print. `list` mutates
/// nothing; `done` and `rm` on an unknown id leave the store alone, report
/// the miss, and still succeed.
pub fn dispatch(tasks: &mut Vec<Task>, cmd: Command) -> (r: (bool, Vec<String>))
    requires
        cmd matches Command::Add(_) ==> spec_max_id(views_of(old(tasks)@)) < u32::MAX,
    ensures
        match cmd {
            Command::Add(text) => {
                &&& views_of(final(tasks)@) == spec_add(views_of(old(tasks)@), text@)
                &&& r.0 == true
                &&& r.1@.len() == 1 && r.1@[0]@ == spec_added_msg()
            },
            Command::List => {
                &&& final(tasks)@ == old(tasks)@
                &&& r.0 == false
                &&& r.1@.len() == spec_list_lines(views_of(old(tasks)@)).len()
                &&& forall|i: int|
                    0 <= i < r.1@.len() ==> r.1@[i]@ == #[trigger] spec_list_lines(
                        views_of(old(tasks)@),
                    )[i]
            },
            Command::Done(id) => {
                &&& views_of(final(tasks)@) == spec_mark_done(views_of(old(tasks)@), id)
                &&& r.0 == spec_has_id(views_of(old(tasks)@), id)
                &&& r.1@.len() == 1
                &&& r.1@[0]@ == (if spec_has_id(views_of(old(tasks)@), id) {
                    spec_done_msg()
                } else {
                    spec_missing_msg(id)
                })
            },
            Command::Rm(id) => {
                &&& views_of(final(tasks)@) == spec_remove(views_of(old(tasks)@), id)
                &&& r.0 == spec_has_id(views_of(old(tasks)@), id)
                &&& r.1@.len() == 1
                &&& r.1@[0]@ == (if spec_has_id(views_of(old(tasks)@), id) {
                    spec_removed_msg()
                } else {
                    spec_missing_msg(id)
                })
            },
            Command::Clear => {
                &&& views_of(final(tasks)@) == Seq::<TaskView>::empty()
                &&& final(tasks)@.len() == 0
                &&& r.0 == true
                &&& r.1@.len() == 1 && r.1@[0]@ == spec_cleared_msg()
            },
        },
{
    match cmd {
        Command::Add(text) => {
            crate::store::add(tasks, text);
            let mut lines: Vec<String> = Vec::new();
            lines.push("\u{2713} added".to_owned());
            (true, lines)
        },
        Command::List => {
            let lines = list_lines(tasks);
            (false, lines)
        },
        Command::Done(id) => {
            let found = mark_done(tasks, id);
            let mut lines: Vec<String> = Vec::new();
            if found {
                lines.push("\u{2713} marked as done".to_owned());
            } else {
                lines.push(missing_msg(id));
            }
            (found, lines)
        },
        Command::Rm(id) => {
            let removed = remove(tasks, id);
            let mut lines: Vec<String> = Vec::new();
            if removed {
                lines.push("\u{2713} removed".to_owned());
            } else {
                lines.push(missing_msg(id));
            }
            (removed, lines)
        },
        Command::Clear => {
            clear(tasks);
            let mut lines: Vec<String> = Vec::new();
            lines.push("\u{2713} cleared".to_owned());
            (true, lines)
        },
    }
}

} // verus!
