//! The in-memory task list and the dispatch step of the command loop.
use vstd::prelude::*;

use crate::command::Command;
use crate::text::dec_str_of;
use crate::text::push_char;
use crate::text::usize_to_string;
use crate::todo::get_done_character;
use crate::todo::TaskData;
use crate::todo::ToDo;

verus! {

/// The mark a rendered task shows between its brackets.
pub open spec fn mark_spec(done: bool) -> char {
    if done {
        '\u{2714}'
    } else {
        ' '
    }
}

/// One task line: `[<mark>] <name>`.
pub open spec fn render_line_spec(t: TaskData) -> Seq<char> {
    "["@ + seq![mark_spec(t.done)] + "] "@ + t.name
}

/// The full view of one task: name, description, and state, one per line.
pub open spec fn render_details_spec(t: TaskData) -> Seq<char> {
    "Name: "@ + t.name + "\nDescription: "@ + t.description + "\nDone: ["@ + seq![
        mark_spec(t.done),
    ] + "]"@
}

/// The line the list view prints for the task at 1-based position `pos`.
pub open spec fn numbered_line_spec(pos: int, t: TaskData) -> Seq<char> {
    dec_str_of(pos) + ". "@ + render_line_spec(t)
}

/// Every list line, in display order.
pub open spec fn list_lines_spec(ts: Seq<TaskData>) -> Seq<Seq<char>> {
    Seq::new(ts.len(), |i: int| numbered_line_spec(i + 1, ts[i]))
}

/// A 1-based id that refers to a task of the list.
pub open spec fn valid_id(ts: Seq<TaskData>, id: usize) -> bool {
    1 <= id && id <= ts.len()
}

/// The list after `Done(id)`: the task at `id - 1` with its flag flipped.
pub open spec fn done_applied(ts: Seq<TaskData>, id: usize) -> Seq<TaskData> {
    ts.update(id - 1, TaskData { done: !ts[id - 1].done, ..ts[id - 1] })
}

/// The list after `Delete(id)`: the task at `id - 1` removed.
pub open spec fn delete_applied(ts: Seq<TaskData>, id: usize) -> Seq<TaskData> {
    ts.remove(id - 1)
}

/// What the loop does after a dispatch step.
#[derive(Clone, Copy, Debug, PartialEq, Eq, Structural)]
pub enum Action {
    /// Read the next line.
    Proceed,
    /// Run the interactive task creation, then read the next line.
    RequestCreate,
    /// Persist the list and the history, then terminate.
    SaveAndExit,
}

/// What one dispatch step asks the loop to do: print these lines, then act.
pub struct DispatchResult {
    pub lines: Vec<String>,
    pub action: Action,
}

/// The session: the task list, owned for the whole process lifetime.
pub struct Session {
    todos: Vec<ToDo>,
}

impl View for Session {
    type V = Seq<TaskData>;

    closed spec fn view(&self) -> Seq<TaskData> {
        self.todos.deep_view()
    }
}

/// Renders one task as its list line `[<mark>] <name>`.
pub fn render_line(t: &ToDo) -> (r: String)
    ensures
        r@ == render_line_spec(t@),
{
    let mut s = String::from_str("[");
    push_char(&mut s, get_done_character(t.done()));
    s.append("] ");
    s.append(t.name().as_str());
    assert(s@ =~= render_line_spec(t@));
    s
}

/// Renders the full multi-line view of one task.
pub fn render_details(t: &ToDo) -> (r: String)
    ensures
        r@ == render_details_spec(t@),
{
    let mut s = String::from_str("Name: ");
    s.append(t.name().as_str());
    s.append("\nDescription: ");
    s.append(t.description().as_str());
    s.append("\nDone: [");
    push_char(&mut s, get_done_character(t.done()));
    s.append("]");
    assert(s@ =~= render_details_spec(t@));
    s
}

impl Session {
    /// A session over the tasks the store handed back.
    pub fn new(todos: Vec<ToDo>) -> (s: Session)
        ensures
            s@ == todos.deep_view(),
    {
        Session { todos }
    }

    /// The current tasks, for the store to persist.
    pub fn tasks(&self) -> (r: &Vec<ToDo>)
        ensures
            r.deep_view() == self@,
    {
        &self.todos
    }

    /// Appends a freshly created task at the end of the list.
    pub fn add_task(&mut self, t: ToDo)
        ensures
            final(self)@ == old(self)@.push(t@),
    {
        let ghost before = self@;
        self.todos.push(t);
        assert(self.todos.deep_view() =~= before.push(t@));
    }

    /// One step of the command loop: executes `cmd` against the list and
    /// says what to print and what to do next.
    ///
    /// `Done`, `Delete` and `Details` treat the sentinel id `0` and an
    /// out-of-range id alike: the not-found message, and no change.
    pub fn dispatch(&mut self, cmd: &Command) -> (r: DispatchResult)
        ensures
            cmd is Exit ==> final(self)@ == old(self)@ && r.lines.deep_view() == Seq::<
                Seq<char>,
            >::empty() && r.action is SaveAndExit,
            cmd is List ==> final(self)@ == old(self)@ && r.lines.deep_view() == list_lines_spec(
                old(self)@,
            ) && r.action is Proceed,
            cmd is Create ==> final(self)@ == old(self)@ && r.lines.deep_view() == Seq::<
                Seq<char>,
            >::empty() && r.action is RequestCreate,
            cmd is Nothing ==> final(self)@ == old(self)@ && r.lines.deep_view() == Seq::<
                Seq<char>,
            >::empty() && r.action is Proceed,
            cmd is Unknown ==> final(self)@ == old(self)@ && r.lines.deep_view() == seq![
                "Unknown"@,
            ] && r.action is Proceed,
            *cmd matches Command::Done(id) ==> r.action is Proceed && (if valid_id(old(self)@, id) {
                    final(self)@ == done_applied(old(self)@, id) && r.lines.deep_view() == Seq::<
                        Seq<char>,
                    >::empty()
                } else {
                    final(self)@ == old(self)@ && r.lines.deep_view() == seq![
                        "Such todo doesn't exist"@,
                    ]
                }),
            *cmd matches Command::Delete(id) ==> r.action is Proceed && (if valid_id(
                    old(self)@,
                    id,
                ) {
                    final(self)@ == delete_applied(old(self)@, id) && r.lines.deep_view() == Seq::<
                        Seq<char>,
                    >::empty()
                } else {
                    final(self)@ == old(self)@ && r.lines.deep_view() == seq![
                        "Such todo doesn't exist"@,
                    ]
                }),
            *cmd matches Command::Details(id) ==> final(self)@ == old(self)@ && r.action is Proceed
                    && (if valid_id(old(self)@, id) {
                    r.lines.deep_view() == seq![render_details_spec(old(self)@[id - 1])]
                } else {
                    r.lines.deep_view() == seq!["Such todo doesn't exist"@]
                }),
    {
        let ghost before = self@;
        match cmd {
            Command::Exit => {
                let r = DispatchResult { lines: Vec::new(), action: Action::SaveAndExit };
                assert(r.lines.deep_view() =~= Seq::<Seq<char>>::empty());
                r
            },
            Command::List => {
                let mut lines: Vec<String> = Vec::new();
                let n = self.todos.len();
                let mut i: usize = 0;
                while i < n
                    invariant
                        0 <= i <= n,
                        n == self.todos.len(),
                        self@ == before,
                        self.todos.deep_view() == before,
                        lines.deep_view() =~~= list_lines_spec(before).subrange(0, i as int),
                    decreases n - i,
                {
                    let mut line = usize_to_string(i + 1);
                    line.append(". ");
                    let rest = render_line(&self.todos[i]);
                    line.append(rest.as_str());
                    assert(line@ =~= numbered_line_spec(i + 1, before[i as int]));
                    let ghost prev = lines.deep_view();
                    let ghost lv = line@;
                    lines.push(line);
                    proof {
                        assert(lines.deep_view() =~~= prev.push(lv));
                    }
                    i += 1;
                    assert(lines.deep_view() =~~= list_lines_spec(before).subrange(0, i as int))
                        by {
                        assert(list_lines_spec(before).subrange(0, i as int) =~= list_lines_spec(
                            before,
                        ).subrange(0, i - 1).push(list_lines_spec(before)[i - 1]));
                    }
                }
                assert(lines.deep_view() =~~= list_lines_spec(before));
                DispatchResult { lines, action: Action::Proceed }
            },
            Command::Create => {
                let r = DispatchResult { lines: Vec::new(), action: Action::RequestCreate };
                assert(r.lines.deep_view() =~= Seq::<Seq<char>>::empty());
                r
            },
            Command::Nothing => {
                let r = DispatchResult { lines: Vec::new(), action: Action::Proceed };
                assert(r.lines.deep_view() =~= Seq::<Seq<char>>::empty());
                r
            },
            Command::Unknown => {
                let mut lines: Vec<String> = Vec::new();
                lines.push(String::from_str("Unknown"));
                assert(lines.deep_view() =~= seq!["Unknown"@]);
                DispatchResult { lines, action: Action::Proceed }
            },
            Command::Done(id) => {
                let id = *id;
                if id == 0 || id - 1 >= self.todos.len() {
                    self.not_found()
                } else {
                    let t = &mut self.todos[id - 1];
                    t.change_status();
                    assert(self.todos.deep_view() =~= done_applied(before, id));
                    let r = DispatchResult { lines: Vec::new(), action: Action::Proceed };
                    assert(r.lines.deep_view() =~= Seq::<Seq<char>>::empty());
                    r
                }
            },
            Command::Delete(id) => {
                let id = *id;
                if id == 0 || id - 1 >= self.todos.len() {
                    self.not_found()
                } else {
                    self.todos.remove(id - 1);
                    assert(self.todos.deep_view() =~= delete_applied(before, id));
                    let r = DispatchResult { lines: Vec::new(), action: Action::Proceed };
                    assert(r.lines.deep_view() =~= Seq::<Seq<char>>::empty());
                    r
                }
            },
            Command::Details(id) => {
                let id = *id;
                if id == 0 || id - 1 >= self.todos.len() {
                    self.not_found()
                } else {
                    let mut lines: Vec<String> = Vec::new();
                    lines.push(render_details(&self.todos[id - 1]));
                    assert(lines.deep_view() =~= seq![render_details_spec(before[id - 1])]);
                    DispatchResult { lines, action: Action::Proceed }
                }
            },
        }
    }

    fn not_found(&mut self) -> (r: DispatchResult)
        ensures
            final(self)@ == old(self)@,
            r.lines.deep_view() == seq!["Such todo doesn't exist"@],
            r.action is Proceed,
    {
        let mut lines: Vec<String> = Vec::new();
        lines.push(String::from_str("Such todo doesn't exist"));
        assert(lines.deep_view() =~= seq!["Such todo doesn't exist"@]);
        DispatchResult { lines, action: Action::Proceed }
    }
}

/// `Done(id)` touches exactly the task at position `id - 1`: its flag is
/// flipped, its text is kept, and every other task is unchanged.
pub proof fn lemma_done_toggles_exactly(ts: Seq<TaskData>, id: usize)
    requires
        valid_id(ts, id),
    ensures
        done_applied(ts, id).len() == ts.len(),
        done_applied(ts, id)[id - 1].done == !ts[id - 1].done,
        done_applied(ts, id)[id - 1].name == ts[id - 1].name,
        done_applied(ts, id)[id - 1].description == ts[id - 1].description,
        forall|j: int| 0 <= j < ts.len() && j != id - 1 ==> done_applied(ts, id)[j] == ts[j],
{
}

/// Applying `Done(id)` twice returns the list to its original state.
pub proof fn lemma_done_twice(ts: Seq<TaskData>, id: usize)
    requires
        valid_id(ts, id),
    ensures
        done_applied(done_applied(ts, id), id) == ts,
{
    assert(done_applied(done_applied(ts, id), id) =~= ts);
}

/// `Delete(id)` removes exactly the task at position `id - 1`: the list
/// shrinks by one, earlier tasks keep their position, and later tasks
/// shift down by one.
pub proof fn lemma_delete_shifts(ts: Seq<TaskData>, id: usize)
    requires
        valid_id(ts, id),
    ensures
        delete_applied(ts, id).len() == ts.len() - 1,
        forall|j: int| 0 <= j < id - 1 ==> delete_applied(ts, id)[j] == ts[j],
        forall|j: int| id - 1 <= j < ts.len() - 1 ==> delete_applied(ts, id)[j] == ts[j + 1],
{
}

} // verus!
