//! A tiny personal task tracker: an ordered store of tasks, each with a
//! numeric id, a text and a done flag, together with the codec for the
//! on-disk format and the command logic that mutates the store.

mod codec;
mod decode;
mod dispatch;
mod encode;
mod persist;
mod render;
mod roundtrip;
mod store;
mod task;

pub use codec::spec_encode_tasks;
pub use codec::spec_parse_tasks;
pub use decode::parse_tasks;
pub use decode::str_to_chars;
pub use dispatch::Command;
pub use dispatch::dispatch;
pub use dispatch::spec_added_msg;
pub use dispatch::spec_cleared_msg;
pub use dispatch::spec_done_msg;
pub use dispatch::spec_missing_msg;
pub use dispatch::spec_removed_msg;
pub use encode::encode_tasks;
pub use persist::StoreError;
pub use persist::load_tasks;
pub use render::list_lines;
pub use render::spec_list_lines;
pub use render::spec_no_tasks_msg;
pub use render::spec_render_line;
pub use roundtrip::lemma_encode_parse_round_trip;
pub use store::add;
pub use store::clear;
pub use store::lemma_add_ids_monotone;
pub use store::lemma_mark_done_idempotent;
pub use store::mark_done;
pub use store::remove;
pub use store::spec_add;
pub use store::spec_find;
pub use store::spec_has_id;
pub use store::spec_mark_done;
pub use store::spec_remove;
pub use task::Task;
pub use task::TaskView;
pub use task::next_id;
pub use task::spec_max_id;
pub use task::spec_next_id;
pub use task::views_of;
