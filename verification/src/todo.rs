//! The task record: a name, an optional description, and a completion flag.
use vstd::prelude::*;

verus! {

/// Mathematical model of a task: the two text fields as character
/// sequences, and the completion flag.
pub ghost struct TaskData {
    pub name: Seq<char>,
    pub description: Seq<char>,
    pub done: bool,
}

/// A single trackable item. `name` is never empty when the task is built
/// from interactive input, but a task constructed directly may hold any
/// text, the empty string included.
pub struct ToDo {
    name: String,
    description: String,
    done: bool,
}

impl View for ToDo {
    type V = TaskData;

    closed spec fn view(&self) -> TaskData {
        TaskData { name: self.name@, description: self.description@, done: self.done }
    }
}

impl DeepView for ToDo {
    type V = TaskData;

    open spec fn deep_view(&self) -> TaskData {
        self.view()
    }
}

impl ToDo {
    /// Direct constructor: any name and description, any status.
    pub fn new(name: String, description: String, done: bool) -> (t: ToDo)
        ensures
            t@ == (TaskData { name: name@, description: description@, done }),
    {
        ToDo { name, description, done }
    }

    /// Flips the completion flag; the text fields are untouched.
    pub fn change_status(&mut self)
        ensures
            final(self)@ == (TaskData { done: !old(self)@.done, ..old(self)@ }),
    {
        self.done = !self.done;
    }

    /// The compute side of interactive creation: both fields trimmed, the
    /// task not yet done. The caller prompts again until the name passes
    /// `name_acceptable`, so a created task never has an empty name.
    pub fn from_input(name: &str, description: &str) -> (t: ToDo)
        requires
            crate::text::trim_spec(name@).len() != 0,
        ensures
            t@ == (TaskData {
                name: crate::text::trim_spec(name@),
                description: crate::text::trim_spec(description@),
                done: false,
            }),
    {
        let n = crate::text::trim(name);
        let d = crate::text::trim(description);
        ToDo { name: String::from_str(n), description: String::from_str(d), done: false }
    }

    pub fn name(&self) -> (r: &String)
        ensures
            r@ == self@.name,
    {
        &self.name
    }

    pub fn description(&self) -> (r: &String)
        ensures
            r@ == self@.description,
    {
        &self.description
    }

    pub fn done(&self) -> (r: bool)
        ensures
            r == self@.done,
    {
        self.done
    }
}

/// A typed name is accepted when something is left of it after trimming.
pub fn name_acceptable(name: &str) -> (r: bool)
    ensures
        r == (crate::text::trim_spec(name@).len() != 0),
{
    let t = crate::text::trim(name);
    t.unicode_len() != 0
}

/// The mark shown inside the brackets of a rendered task line: a checkmark
/// glyph for a finished task, a space otherwise.
pub fn get_done_character(done: bool) -> (c: char)
    ensures
        c == (if done {
            '\u{2714}'
        } else {
            ' '
        }),
{
    if done {
        '\u{2714}'
    } else {
        ' '
    }
}

} // verus!
