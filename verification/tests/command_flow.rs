//! The command grammar and the session state machine.
use iforgor::classify_line;
use iforgor::command_with_id;
use iforgor::get_done_character;
use iforgor::id_parse_failed;
use iforgor::inline_id_parse_failed;
use iforgor::name_acceptable;
use iforgor::parse_usize;
use iforgor::render_details;
use iforgor::render_line;
use iforgor::should_record_history;
use iforgor::Action;
use iforgor::Command;
use iforgor::IdKind;
use iforgor::LineClass;
use iforgor::Session;
use iforgor::ToDo;

fn task(name: &str, description: &str, done: bool) -> ToDo {
    ToDo::new(name.to_string(), description.to_string(), done)
}

fn sample_session() -> Session {
    Session::new(vec![task("alpha", "first", false), task("beta", "second", true), task(
        "gamma",
        "third",
        false,
    )])
}

fn names(s: &Session) -> Vec<String> {
    s.tasks().iter().map(|t| t.name().clone()).collect()
}

#[test]
fn classify_exact_words() {
    assert_eq!(classify_line("exit"), LineClass::Complete(Command::Exit));
    assert_eq!(classify_line("list"), LineClass::Complete(Command::List));
    assert_eq!(classify_line("ls"), LineClass::Complete(Command::List));
    assert_eq!(classify_line("clear_history"), LineClass::Complete(Command::Nothing));
    assert_eq!(classify_line("create"), LineClass::Complete(Command::Create));
    assert_eq!(classify_line("add"), LineClass::Complete(Command::Create));
    assert_eq!(classify_line("  exit  "), LineClass::Complete(Command::Exit));
}

#[test]
fn trimming_covers_unicode_whitespace() {
    // no-break space and ideographic space carry the White_Space property
    assert_eq!(classify_line("\u{a0}exit\u{3000}"), LineClass::Complete(Command::Exit));
    assert_eq!(classify_line("\tdone 4\n"), LineClass::Complete(Command::Done(4)));
}

#[test]
fn classify_done_with_inline_id() {
    assert_eq!(classify_line("done 3"), LineClass::Complete(Command::Done(3)));
}

#[test]
fn classify_done_then_prompted_id() {
    assert_eq!(classify_line("done"), LineClass::NeedsId(IdKind::Done));
    assert_eq!(command_with_id(IdKind::Done, "3"), Command::Done(3));
    assert_eq!(command_with_id(IdKind::Done, " 3 "), Command::Done(3));
}

#[test]
fn classify_prefix_forms() {
    assert_eq!(classify_line("delete 2"), LineClass::Complete(Command::Delete(2)));
    assert_eq!(classify_line("remove 10"), LineClass::Complete(Command::Delete(10)));
    assert_eq!(classify_line("show 1"), LineClass::Complete(Command::Details(1)));
    assert_eq!(classify_line("details 4"), LineClass::Complete(Command::Details(4)));
    assert_eq!(classify_line("details"), LineClass::NeedsId(IdKind::Details));
    assert_eq!(classify_line("remove"), LineClass::NeedsId(IdKind::Delete));
    // a single word that merely begins with a keyword still prompts
    assert_eq!(classify_line("showtime"), LineClass::NeedsId(IdKind::Details));
}

#[test]
fn classify_takes_last_token() {
    assert_eq!(classify_line("done 1 2"), LineClass::Complete(Command::Done(2)));
    assert_eq!(classify_line("delete the second one 2"), LineClass::Complete(Command::Delete(2)));
}

#[test]
fn classify_unknown() {
    assert_eq!(classify_line("frobnicate"), LineClass::Complete(Command::Unknown));
    assert_eq!(classify_line(""), LineClass::Complete(Command::Unknown));
}

#[test]
fn unparseable_id_becomes_sentinel() {
    assert_eq!(classify_line("done abc"), LineClass::Complete(Command::Done(0)));
    assert_eq!(command_with_id(IdKind::Delete, "x"), Command::Delete(0));
    assert!(inline_id_parse_failed("done abc"));
    assert!(!inline_id_parse_failed("done 3"));
    assert!(!inline_id_parse_failed("done"));
    assert!(!inline_id_parse_failed("list"));
    assert!(id_parse_failed("x"));
    assert!(!id_parse_failed(" 7 "));
}

#[test]
fn parse_usize_reads_numbers() {
    assert_eq!(parse_usize("3"), Some(3));
    assert_eq!(parse_usize("+3"), Some(3));
    assert_eq!(parse_usize("007"), Some(7));
    assert_eq!(parse_usize("18446744073709551615"), Some(usize::MAX));
    assert_eq!(parse_usize("18446744073709551616"), None);
    assert_eq!(parse_usize(""), None);
    assert_eq!(parse_usize("+"), None);
    assert_eq!(parse_usize("1a"), None);
    assert_eq!(parse_usize("-1"), None);
}

#[test]
fn history_is_recorded_except_exit_and_clear() {
    assert!(should_record_history("list"));
    assert!(should_record_history("done 3"));
    assert!(should_record_history("frobnicate"));
    assert!(!should_record_history("exit"));
    assert!(!should_record_history(" exit "));
    assert!(!should_record_history("clear_history"));
}

#[test]
fn done_toggles_exactly_one_task() {
    let mut s = sample_session();
    let r = s.dispatch(&Command::Done(1));
    assert_eq!(r.action, Action::Proceed);
    assert!(r.lines.is_empty());
    assert!(s.tasks()[0].done());
    assert!(s.tasks()[1].done());
    assert!(!s.tasks()[2].done());
    assert_eq!(names(&s), vec!["alpha", "beta", "gamma"]);
}

#[test]
fn done_twice_restores_the_task() {
    let mut s = sample_session();
    s.dispatch(&Command::Done(2));
    assert!(!s.tasks()[1].done());
    s.dispatch(&Command::Done(2));
    assert!(s.tasks()[1].done());
    assert_eq!(s.tasks()[1].description().as_str(), "second");
}

#[test]
fn out_of_range_ids_leave_the_list_alone() {
    let mut s = sample_session();
    for cmd in [Command::Done(0), Command::Done(4), Command::Delete(0), Command::Delete(17),
        Command::Details(0), Command::Details(4)] {
        let r = s.dispatch(&cmd);
        assert_eq!(r.lines, vec!["Such todo doesn't exist".to_string()]);
        assert_eq!(r.action, Action::Proceed);
    }
    assert_eq!(names(&s), vec!["alpha", "beta", "gamma"]);
    assert!(!s.tasks()[0].done());
    assert!(s.tasks()[1].done());
}

#[test]
fn delete_removes_and_shifts() {
    let mut s = sample_session();
    let r = s.dispatch(&Command::Delete(2));
    assert!(r.lines.is_empty());
    assert_eq!(names(&s), vec!["alpha", "gamma"]);
    // the later task shifted into position 2
    let r2 = s.dispatch(&Command::Delete(2));
    assert!(r2.lines.is_empty());
    assert_eq!(names(&s), vec!["alpha"]);
}

#[test]
fn list_prints_numbered_lines() {
    let mut s = sample_session();
    let r = s.dispatch(&Command::List);
    assert_eq!(
        r.lines,
        vec![
            "1. [ ] alpha".to_string(),
            "2. [\u{2714}] beta".to_string(),
            "3. [ ] gamma".to_string(),
        ],
    );
    assert_eq!(r.action, Action::Proceed);
}

#[test]
fn details_prints_the_full_view() {
    let mut s = sample_session();
    let r = s.dispatch(&Command::Details(2));
    assert_eq!(r.lines, vec!["Name: beta\nDescription: second\nDone: [\u{2714}]".to_string()]);
    assert_eq!(names(&s), vec!["alpha", "beta", "gamma"]);
}

#[test]
fn unknown_prints_unknown_and_changes_nothing() {
    let mut s = sample_session();
    assert_eq!(classify_line("frobnicate"), LineClass::Complete(Command::Unknown));
    let r = s.dispatch(&Command::Unknown);
    assert_eq!(r.lines, vec!["Unknown".to_string()]);
    assert_eq!(r.action, Action::Proceed);
    assert_eq!(names(&s), vec!["alpha", "beta", "gamma"]);
}

#[test]
fn exit_and_create_and_nothing_actions() {
    let mut s = sample_session();
    let r = s.dispatch(&Command::Exit);
    assert!(r.lines.is_empty());
    assert_eq!(r.action, Action::SaveAndExit);
    let r = s.dispatch(&Command::Create);
    assert_eq!(r.action, Action::RequestCreate);
    let r = s.dispatch(&Command::Nothing);
    assert!(r.lines.is_empty());
    assert_eq!(r.action, Action::Proceed);
    assert_eq!(names(&s), vec!["alpha", "beta", "gamma"]);
}

#[test]
fn creation_trims_and_validates_the_name() {
    assert!(!name_acceptable(""));
    assert!(!name_acceptable("   "));
    assert!(name_acceptable(" Buy milk "));
    let t = ToDo::from_input(" Buy milk ", "  2 litres ");
    assert_eq!(t.name().as_str(), "Buy milk");
    assert_eq!(t.description().as_str(), "2 litres");
    assert!(!t.done());
}

#[test]
fn rendering_marks_done_tasks() {
    assert_eq!(get_done_character(true), '\u{2714}');
    assert_eq!(get_done_character(false), ' ');
    assert_eq!(render_line(&task("alpha", "", false)), "[ ] alpha");
    assert_eq!(render_line(&task("alpha", "", true)), "[\u{2714}] alpha");
    assert_eq!(render_details(&task("a", "b", false)), "Name: a\nDescription: b\nDone: [ ]");
}

#[test]
fn change_status_flips_only_the_flag() {
    let mut t = task("alpha", "desc", false);
    t.change_status();
    assert!(t.done());
    t.change_status();
    assert!(!t.done());
    assert_eq!(t.name().as_str(), "alpha");
    assert_eq!(t.description().as_str(), "desc");
}

#[test]
fn whole_session_scenario() {
    // empty store -> create "Buy milk" -> list -> done 1 -> list -> exit
    let mut s = Session::new(Vec::new());
    let r = s.dispatch(&Command::List);
    assert!(r.lines.is_empty());
    assert_eq!(classify_line("create"), LineClass::Complete(Command::Create));
    assert_eq!(s.dispatch(&Command::Create).action, Action::RequestCreate);
    assert!(name_acceptable("Buy milk"));
    s.add_task(ToDo::from_input("Buy milk", ""));
    let r = s.dispatch(&Command::List);
    assert_eq!(r.lines, vec!["1. [ ] Buy milk".to_string()]);
    assert_eq!(classify_line("done 1"), LineClass::Complete(Command::Done(1)));
    s.dispatch(&Command::Done(1));
    let r = s.dispatch(&Command::List);
    assert_eq!(r.lines, vec!["1. [\u{2714}] Buy milk".to_string()]);
    assert_eq!(classify_line("exit"), LineClass::Complete(Command::Exit));
    let r = s.dispatch(&Command::Exit);
    assert_eq!(r.action, Action::SaveAndExit);
    let text = iforgor::serialize_tasks(s.tasks());
    assert_eq!(text, "[{\"name\":\"Buy milk\",\"description\":\"\",\"done\":true}]");
}
