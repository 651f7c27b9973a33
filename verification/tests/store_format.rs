//! The on-disk document: writing, reading back, and rejecting bad text.
use iforgor::parse_tasks;
use iforgor::serialize_tasks;
use iforgor::ConfigManager;
use iforgor::ToDo;

fn task(name: &str, description: &str, done: bool) -> ToDo {
    ToDo::new(name.to_string(), description.to_string(), done)
}

fn same_tasks(a: &Vec<ToDo>, b: &Vec<ToDo>) -> bool {
    a.len() == b.len()
        && a.iter().zip(b.iter()).all(|(x, y)| {
            x.name() == y.name() && x.description() == y.description() && x.done() == y.done()
        })
}

fn round_trips(tasks: Vec<ToDo>) {
    let text = serialize_tasks(&tasks);
    let back = parse_tasks(text.as_str()).expect("written document must parse");
    assert!(same_tasks(&tasks, &back));
}

#[test]
fn empty_list_round_trips() {
    assert_eq!(serialize_tasks(&Vec::new()), "[]");
    round_trips(Vec::new());
}

#[test]
fn one_task_round_trips() {
    round_trips(vec![task("alpha", "first", false)]);
}

#[test]
fn many_tasks_round_trip() {
    round_trips(vec![
        task("alpha", "first", false),
        task("beta", "second", true),
        task("gamma", "", false),
        task("delta", "fourth", true),
    ]);
}

#[test]
fn empty_name_round_trips() {
    // impossible through the prompts, but a directly built task may hold it
    round_trips(vec![task("", "", false)]);
}

#[test]
fn special_characters_round_trip() {
    round_trips(vec![
        task("with \"quotes\"", "and \\ backslash", false),
        task("tab\there", "line\nbreak", true),
        task("control\u{1}char", "bell\u{7} and\u{1f}", false),
        task("caf\u{e9} \u{2714} \u{1f480}", "non-ascii", true),
        task("slash/es", "carriage\rreturn", false),
    ]);
}

#[test]
fn canonical_spelling_matches_the_usual_json_form() {
    let text = serialize_tasks(&vec![task("a\"b", "c\\d\ne\u{1f}", true)]);
    assert_eq!(text, "[{\"name\":\"a\\\"b\",\"description\":\"c\\\\d\\ne\\u001f\",\"done\":true}]");
}

#[test]
fn other_json_readers_accept_what_is_written() {
    let tasks = vec![task("Buy milk", "2 litres \"cold\"", true), task("b", "", false)];
    let text = serialize_tasks(&tasks);
    let v: serde_json::Value = serde_json::from_str(text.as_str()).expect("serde_json parses it");
    let arr = v.as_array().expect("an array");
    assert_eq!(arr.len(), 2);
    assert_eq!(arr[0].get("name").unwrap().as_str().unwrap(), "Buy milk");
    assert_eq!(arr[0].get("description").unwrap().as_str().unwrap(), "2 litres \"cold\"");
    assert_eq!(arr[0].get("done").unwrap().as_bool().unwrap(), true);
    assert_eq!(arr[1].get("done").unwrap().as_bool().unwrap(), false);
}

#[test]
fn whitespace_and_member_order_are_accepted() {
    let text = " [ { \"done\" : true , \"name\" : \"a\" , \"description\" : \"b\" } ,\n\t{\"name\":\"c\",\"description\":\"d\",\"done\":false} ] ";
    let tasks = parse_tasks(text).expect("parses");
    assert_eq!(tasks.len(), 2);
    assert_eq!(tasks[0].name().as_str(), "a");
    assert_eq!(tasks[0].description().as_str(), "b");
    assert!(tasks[0].done());
    assert_eq!(tasks[1].name().as_str(), "c");
    assert!(!tasks[1].done());
}

#[test]
fn escapes_are_decoded() {
    let text = "[{\"name\":\"a\\u0041\\t\\\"\",\"description\":\"\\\\ \\/ \\b\\f\\r\\n\",\"done\":false}]";
    let tasks = parse_tasks(text).expect("parses");
    assert_eq!(tasks[0].name().as_str(), "aA\t\"");
    assert_eq!(tasks[0].description().as_str(), "\\ / \u{8}\u{c}\r\n");
}

#[test]
fn malformed_documents_are_refused() {
    for text in [
        "",
        "[",
        "{}",
        "[{]",
        "[{}]",
        "[{\"name\":\"a\"}]",
        "[{\"name\":\"a\",\"description\":\"b\",\"done\":1}]",
        "[{\"name\":\"a\",\"description\":\"b\",\"done\":true},]",
        "[{\"name\":\"a\",\"description\":\"b\",\"done\":true}] x",
        "[{\"name\":\"a\",\"name\":\"b\",\"done\":true}]",
        "[{\"name\":\"a\",\"description\":\"b\",\"done\":true,\"extra\":0}]",
        "[{\"name\":\"a\",\"description\":\"b\",\"done\":true}",
        "[{\"name\":\"a\",\"description\":\"b\",\"done\":true\"}]",
        "[{\"name\":\"unterminated,\"description\":\"b\",\"done\":true}]",
        "[{\"name\":\"bad \\u12\",\"description\":\"b\",\"done\":true}]",
        "[{\"name\":\"surrogate \\ud800\",\"description\":\"b\",\"done\":true}]",
    ] {
        assert!(parse_tasks(text).is_none(), "should refuse: {}", text);
    }
}

#[test]
fn config_manager_keeps_its_path_and_translates() {
    let m = ConfigManager::new("/tmp/iforgor-conf".to_string());
    assert_eq!(m.config_path().as_str(), "/tmp/iforgor-conf");
    let tasks = vec![task("alpha", "", false)];
    let text = m.write_config(&tasks);
    assert_eq!(text, "[{\"name\":\"alpha\",\"description\":\"\",\"done\":false}]");
    let back = m.load_config(text.as_str()).expect("parses");
    assert!(same_tasks(&tasks, &back));
    assert!(m.load_config("nonsense").is_none());
}

#[test]
fn loading_the_initial_store_gives_no_tasks() {
    // a fresh store file holds `[]`
    let tasks = parse_tasks("[]").expect("parses");
    assert!(tasks.is_empty());
}
