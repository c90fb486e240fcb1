//! Loading the store from the storage file's text. The caller owns the
//! file itself: it hands over the contents, or `None` when no file exists.

use vstd::prelude::*;

use crate::codec::spec_parse_tasks;
use crate::decode::parse_tasks;
use crate::decode::str_to_chars;
use crate::task::Task;
use crate::task::TaskView;
use crate::task::views_of;

verus! {

/// Why an operation on the persisted store failed.
#[derive(Clone, Copy, Debug, PartialEq, Eq, Structural)]
pub enum StoreError {
    /// The user's home directory, where the storage file lives, cannot be
    /// determined.
    HomeDirectoryUnavailable,
    /// The storage file exists but cannot be read, or cannot be written.
    IoError,
    /// The storage file exists but does not hold a valid task sequence.
    CorruptStore,
}

/// Turns the storage file's text into a store. A missing file (`None`) is
/// the empty store of a first run, not an error; text that does not parse
/// as a task sequence is a corrupt store and blocks the operation.
pub fn load_tasks(contents: Option<&str>) -> (r: Result<Vec<Task>, StoreError>)
    ensures
        match r {
            Ok(v) => match contents {
                None => views_of(v@) == Seq::<TaskView>::empty(),
                Some(text) => spec_parse_tasks(text@) == Some(views_of(v@)),
            },
            Err(e) => match contents {
                None => false,
                Some(text) => spec_parse_tasks(text@) is None && e == StoreError::CorruptStore,
            },
        },
{
    match contents {
        None => {
            let v: Vec<Task> = Vec::new();
            proof {
                assert(views_of(v@) =~= Seq::<TaskView>::empty());
            }
            Ok(v)
        },
        Some(text) => {
            let chars = str_to_chars(text);
            match parse_tasks(&chars) {
                Some(v) => Ok(v),
                None => Err(StoreError::CorruptStore),
            }
        },
    }
}

} // verus!
