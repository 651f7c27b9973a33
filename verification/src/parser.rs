//! Classifying one raw input line as a Command.
//!
//! The rules, applied to the trimmed line and in this order: the exact
//! words `exit`, `list`/`ls`, `clear_history`, `create`/`add`; then the
//! prefixes `show`/`details`, `delete`/`remove`, `done`. A prefix form
//! with further tokens takes the last space-separated token as the id;
//! one that is a single token needs one more line of input, which the
//! caller fetches and hands to `command_with_id`. An id token that does
//! not read as a number becomes the sentinel `0`.
use vstd::prelude::*;

use crate::command::Command;
use crate::text::last_space_index;
use crate::text::parse_usize;
use crate::text::parse_usize_spec;
use crate::text::str_eq;
use crate::text::str_starts_with;
use crate::text::starts_with_spec;
use crate::text::trim;
use crate::text::trim_spec;

verus! {

/// Which id-bearing command a line began, when the id is still to come.
#[derive(Clone, Copy, Debug, PartialEq, Eq, Structural)]
pub enum IdKind {
    Done,
    Delete,
    Details,
}

/// The outcome of classifying one line: either a finished command, or an
/// id-bearing form that still needs one more line for its id.
#[derive(Clone, Copy, Debug, PartialEq, Eq, Structural)]
pub enum LineClass {
    Complete(Command),
    NeedsId(IdKind),
}

pub open spec fn with_id_spec(k: IdKind, id: usize) -> Command {
    match k {
        IdKind::Done => Command::Done(id),
        IdKind::Delete => Command::Delete(id),
        IdKind::Details => Command::Details(id),
    }
}

/// The token after the last space of `t`; all of `t` when it has none.
pub open spec fn last_token_spec(t: Seq<char>) -> Seq<char>
    decreases t.len(),
{
    if t.len() == 0 {
        t
    } else if t.last() == ' ' {
        Seq::empty()
    } else {
        last_token_spec(t.drop_last()).push(t.last())
    }
}

pub open spec fn has_space(t: Seq<char>) -> bool {
    exists|i: int| 0 <= i < t.len() && t[i] == ' '
}

/// The id an id token stands for: its numeric value, or the sentinel `0`
/// when it does not read as a number.
pub open spec fn id_of_spec(tok: Seq<char>) -> usize {
    match parse_usize_spec(trim_spec(tok)) {
        Some(v) => v,
        None => 0,
    }
}

pub open spec fn id_form_spec(k: IdKind, t: Seq<char>) -> LineClass {
    if has_space(t) {
        LineClass::Complete(with_id_spec(k, id_of_spec(last_token_spec(t))))
    } else {
        LineClass::NeedsId(k)
    }
}

/// How one trimmed line is read, rule by rule in priority order.
pub open spec fn classify_spec(line: Seq<char>) -> LineClass {
    let t = trim_spec(line);
    if t == "exit"@ {
        LineClass::Complete(Command::Exit)
    } else if t == "list"@ || t == "ls"@ {
        LineClass::Complete(Command::List)
    } else if t == "clear_history"@ {
        LineClass::Complete(Command::Nothing)
    } else if t == "create"@ || t == "add"@ {
        LineClass::Complete(Command::Create)
    } else if starts_with_spec(t, "show"@) || starts_with_spec(t, "details"@) {
        id_form_spec(IdKind::Details, t)
    } else if starts_with_spec(t, "delete"@) || starts_with_spec(t, "remove"@) {
        id_form_spec(IdKind::Delete, t)
    } else if starts_with_spec(t, "done"@) {
        id_form_spec(IdKind::Done, t)
    } else {
        LineClass::Complete(Command::Unknown)
    }
}

/// Every recognized line is recorded in the input history except `exit`
/// and `clear_history`, which leave or rewrite it.
pub open spec fn records_history_spec(line: Seq<char>) -> bool {
    !(trim_spec(line) == "exit"@ || trim_spec(line) == "clear_history"@)
}

pub fn should_record_history(line: &str) -> (r: bool)
    ensures
        r == records_history_spec(line@),
{
    let t = trim(line);
    !(str_eq(t, "exit") || str_eq(t, "clear_history"))
}

/// Whether a line that carries its id inline holds an id token that does
/// not read as a number. The loop reports that before treating the
/// sentinel `0` as not-found.
pub open spec fn inline_id_failed_spec(line: Seq<char>) -> bool {
    let t = trim_spec(line);
    if t == "exit"@ || t == "list"@ || t == "ls"@ || t == "clear_history"@ || t == "create"@ || t
        == "add"@ {
        false
    } else if starts_with_spec(t, "show"@) || starts_with_spec(t, "details"@) || starts_with_spec(
        t,
        "delete"@,
    ) || starts_with_spec(t, "remove"@) || starts_with_spec(t, "done"@) {
        has_space(t) && parse_usize_spec(trim_spec(last_token_spec(t))) is None
    } else {
        false
    }
}

/// Says whether `line` is an id-bearing form whose inline id token did
/// not read as a number.
pub fn inline_id_parse_failed(line: &str) -> (r: bool)
    ensures
        r == inline_id_failed_spec(line@),
{
    let t = trim(line);
    if str_eq(t, "exit") || str_eq(t, "list") || str_eq(t, "ls") || str_eq(t, "clear_history")
        || str_eq(t, "create") || str_eq(t, "add") {
        false
    } else if str_starts_with(t, "show") || str_starts_with(t, "details") || str_starts_with(
        t,
        "delete",
    ) || str_starts_with(t, "remove") || str_starts_with(t, "done") {
        match last_space_index(t) {
            Some(j) => {
                let n = t.unicode_len();
                let tok = t.substring_char(j + 1, n);
                proof {
                    lemma_last_token_after_space(t@, j as int);
                    assert(has_space(t@)) by {
                        assert(0 <= j < t@.len() && t@[j as int] == ' ');
                    }
                }
                parse_usize(trim(tok)).is_none()
            },
            None => {
                proof {
                    lemma_last_token_no_space(t@);
                }
                false
            },
        }
    } else {
        false
    }
}

/// Says whether an id line typed at the `(id) ` prompt did not read as a
/// number.
pub fn id_parse_failed(tok: &str) -> (r: bool)
    ensures
        r == (parse_usize_spec(trim_spec(tok@)) is None),
{
    parse_usize(trim(tok)).is_none()
}

proof fn lemma_last_token_no_space(t: Seq<char>)
    requires
        forall|k: int| 0 <= k < t.len() ==> t[k] != ' ',
    ensures
        last_token_spec(t) == t,
    decreases t.len(),
{
    if t.len() > 0 {
        lemma_last_token_no_space(t.drop_last());
        assert(last_token_spec(t.drop_last()).push(t.last()) =~= t);
    }
}

proof fn lemma_last_token_after_space(t: Seq<char>, j: int)
    requires
        0 <= j < t.len(),
        t[j] == ' ',
        forall|k: int| j < k < t.len() ==> t[k] != ' ',
    ensures
        last_token_spec(t) == t.subrange(j + 1, t.len() as int),
    decreases t.len(),
{
    if j == t.len() - 1 {
        assert(t.last() == ' ');
        assert(Seq::<char>::empty() =~= t.subrange(j + 1, t.len() as int));
    } else {
        lemma_last_token_after_space(t.drop_last(), j);
        assert(last_token_spec(t) == last_token_spec(t.drop_last()).push(t.last()));
        assert(t.drop_last().subrange(j + 1, t.len() - 1).push(t.last()) =~= t.subrange(
            j + 1,
            t.len() as int,
        ));
    }
}

/// The id a token stands for: the parsed number, or `0` on failure.
fn id_or_zero(tok: &str) -> (r: usize)
    ensures
        r == id_of_spec(tok@),
{
    let tt = trim(tok);
    match parse_usize(tt) {
        Some(v) => v,
        None => 0,
    }
}

fn id_form(k: IdKind, t: &str) -> (r: LineClass)
    ensures
        r == id_form_spec(k, t@),
{
    match last_space_index(t) {
        Some(j) => {
            let n = t.unicode_len();
            let tok = t.substring_char(j + 1, n);
            proof {
                lemma_last_token_after_space(t@, j as int);
            }
            LineClass::Complete(match k {
                IdKind::Done => Command::Done(id_or_zero(tok)),
                IdKind::Delete => Command::Delete(id_or_zero(tok)),
                IdKind::Details => Command::Details(id_or_zero(tok)),
            })
        },
        None => {
            proof {
                lemma_last_token_no_space(t@);
            }
            LineClass::NeedsId(k)
        },
    }
}

/// Reads one raw line, giving either the finished command or the
/// id-bearing form whose id must still be asked for.
pub fn classify_line(line: &str) -> (r: LineClass)
    ensures
        r == classify_spec(line@),
{
    let t = trim(line);
    if str_eq(t, "exit") {
        LineClass::Complete(Command::Exit)
    } else if str_eq(t, "list") || str_eq(t, "ls") {
        LineClass::Complete(Command::List)
    } else if str_eq(t, "clear_history") {
        LineClass::Complete(Command::Nothing)
    } else if str_eq(t, "create") || str_eq(t, "add") {
        LineClass::Complete(Command::Create)
    } else if str_starts_with(t, "show") || str_starts_with(t, "details") {
        id_form(IdKind::Details, t)
    } else if str_starts_with(t, "delete") || str_starts_with(t, "remove") {
        id_form(IdKind::Delete, t)
    } else if str_starts_with(t, "done") {
        id_form(IdKind::Done, t)
    } else {
        LineClass::Complete(Command::Unknown)
    }
}

/// Finishes an id-bearing command with the separately supplied id line.
pub fn command_with_id(k: IdKind, id_text: &str) -> (c: Command)
    ensures
        c == with_id_spec(k, id_of_spec(id_text@)),
{
    match k {
        IdKind::Done => Command::Done(id_or_zero(id_text)),
        IdKind::Delete => Command::Delete(id_or_zero(id_text)),
        IdKind::Details => Command::Details(id_or_zero(id_text)),
    }
}

} // verus!
