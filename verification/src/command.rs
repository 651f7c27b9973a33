//! The structured form of one line of user input.
use vstd::prelude::*;

verus! {

/// What one input line asks for. The `usize` payload of the three
/// id-bearing forms is the 1-based position the user typed; `0` is the
/// sentinel left by a failed parse and never refers to a task.
#[derive(Clone, Copy, Debug, PartialEq, Eq, Structural)]
pub enum Command {
    Unknown,
    Nothing,
    List,
    Exit,
    Create,
    Done(usize),
    Delete(usize),
    Details(usize),
}

} // verus!
