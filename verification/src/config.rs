//! The persistence boundary's compute side: the place of the store and the
//! translation between the in-memory list and the document text. Reading
//! and writing the file itself is the caller's work; a document that does
//! not parse is fatal there, never silently repaired.
use vstd::prelude::*;

use crate::json::enc_tasks;
use crate::json::parse_doc;
use crate::json::parse_tasks;
use crate::json::serialize_tasks;
use crate::todo::ToDo;

verus! {

/// Knows where the store lives and how its document is spelled.
pub struct ConfigManager {
    config_path: String,
}

impl ConfigManager {
    /// The directory that holds the tasks file and the history file.
    pub closed spec fn path(&self) -> Seq<char> {
        self.config_path@
    }

    pub fn new(config_path: String) -> (m: ConfigManager)
        ensures
            m.path() == config_path@,
    {
        ConfigManager { config_path }
    }

    pub fn config_path(&self) -> (r: &String)
        ensures
            r@ == self.path(),
    {
        &self.config_path
    }

    /// The compute side of loading: reads the document text the caller
    /// found in the tasks file. `None` exactly on a malformed document.
    pub fn load_config(&self, text: &str) -> (r: Option<Vec<ToDo>>)
        ensures
            match r {
                Some(v) => parse_doc(text@) == Some(v.deep_view()),
                None => parse_doc(text@) is None,
            },
    {
        parse_tasks(text)
    }

    /// The compute side of saving: the document text the caller writes
    /// over the tasks file.
    pub fn write_config(&self, todos: &Vec<ToDo>) -> (r: String)
        ensures
            r@ == enc_tasks(todos.deep_view()),
    {
        serialize_tasks(todos)
    }
}

} // verus!
