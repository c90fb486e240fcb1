use todo_cli::StoreError;
use todo_cli::Task;
use todo_cli::encode_tasks;
use todo_cli::load_tasks;
use todo_cli::parse_tasks;
use todo_cli::str_to_chars;

fn task(id: u32, text: &str, done: bool) -> Task {
    Task { id, text: text.to_owned(), done }
}

fn same_tasks(a: &[Task], b: &[Task]) -> bool {
    a.len() == b.len()
        && a.iter().zip(b.iter()).all(|(x, y)| {
            x.id == y.id && x.text == y.text && x.done == y.done
        })
}

#[test]
fn encode_empty_store() {
    let tasks: Vec<Task> = Vec::new();
    assert_eq!(encode_tasks(&tasks), "[]");
}

#[test]
fn encode_one_task_exact_text() {
    let tasks = vec![task(1, "buy milk", false)];
    let expected = "[\n  {\n    \"id\": 1,\n    \"text\": \"buy milk\",\n    \"done\": false\n  }\n]";
    assert_eq!(encode_tasks(&tasks), expected);
}

#[test]
fn encode_two_tasks_exact_text() {
    let tasks = vec![task(1, "a", false), task(20, "b", true)];
    let expected = "[\n  {\n    \"id\": 1,\n    \"text\": \"a\",\n    \"done\": false\n  },\n  {\n    \"id\": 20,\n    \"text\": \"b\",\n    \"done\": true\n  }\n]";
    assert_eq!(encode_tasks(&tasks), expected);
}

#[test]
fn encode_escapes_special_characters() {
    let tasks = vec![task(1, "a\"b\\c\nd\u{1}e", false)];
    let encoded = encode_tasks(&tasks);
    assert!(encoded.contains("\"a\\\"b\\\\c\\nd\\u0001e\""));
}

#[test]
fn round_trip_preserves_everything() {
    let tasks = vec![
        task(1, "", false),
        task(2, "plain text", true),
        task(40, "quotes \" and \\ backslash", false),
        task(41, "tab\there\nnewline", true),
        task(100, "control \u{1} char \u{1f} end", false),
        task(4294967295, "max id \u{2713} unicode \u{1F600}", true),
    ];
    let encoded = encode_tasks(&tasks);
    let loaded = load_tasks(Some(&encoded)).expect("round trip must parse");
    assert!(same_tasks(&tasks, &loaded));
}

#[test]
fn missing_file_loads_as_empty_store() {
    let loaded = load_tasks(None).expect("no file means empty store");
    assert!(loaded.is_empty());
}

#[test]
fn load_accepts_other_whitespace() {
    let text = "  [ { \"id\" : 7 , \"text\" : \"x\" , \"done\" : true } ]  ";
    let loaded = load_tasks(Some(text)).expect("valid store in loose form");
    assert_eq!(loaded.len(), 1);
    assert_eq!(loaded[0].id, 7);
    assert_eq!(loaded[0].text, "x");
    assert!(loaded[0].done);
}

#[test]
fn load_accepts_compact_form() {
    let text = "[{\"id\": 1, \"text\": \"a\", \"done\": false}, {\"id\": 2, \"text\": \"b\", \"done\": true}]";
    let loaded = load_tasks(Some(text)).expect("compact store");
    assert_eq!(loaded.len(), 2);
    assert_eq!(loaded[1].id, 2);
    assert!(loaded[1].done);
}

#[test]
fn load_decodes_unicode_escapes() {
    let text = "[{\"id\": 1, \"text\": \"\\u0041\\u00e9\\u20AC\", \"done\": false}]";
    let loaded = load_tasks(Some(text)).expect("unicode escapes");
    assert_eq!(loaded[0].text, "A\u{e9}\u{20ac}");
}

#[test]
fn corrupt_store_is_rejected() {
    let corrupt = [
        "not json",
        "\"a bare string\"",
        "[",
        "[{",
        "[{\"id\": 1, \"text\": \"a\", \"done\": false}",
        "{\"id\": 1, \"text\": \"a\", \"done\": false}",
        "[{\"id\": \"1\", \"text\": \"a\", \"done\": false}]",
        "[{\"id\": 1, \"text\": 2, \"done\": false}]",
        "[{\"id\": 1, \"text\": \"a\", \"done\": \"no\"}]",
        "[{\"id\": 01, \"text\": \"a\", \"done\": false}]",
        "[{\"id\": -1, \"text\": \"a\", \"done\": false}]",
        "[{\"id\": 4294967296, \"text\": \"a\", \"done\": false}]",
        "[{\"id\": 1, \"text\": \"a\", \"done\": false}] trailing",
        "[{\"id\": 1, \"text\": \"bad \\x escape\", \"done\": false}]",
        "[{\"id\": 1, \"text\": \"lone surrogate \\uD800\", \"done\": false}]",
        "[{\"id\": 1, \"text\": \"a\", \"done\": false},]",
        "[{\"text\": \"a\", \"id\": 1, \"done\": false}]",
        "[]]",
    ];
    for text in corrupt {
        match load_tasks(Some(text)) {
            Err(StoreError::CorruptStore) => {},
            other => panic!("{:?} should be corrupt, got {:?}", text, other.map(|v| v.len())),
        }
    }
}

#[test]
fn parse_tasks_matches_load() {
    let text = "[{\"id\": 3, \"text\": \"hi\", \"done\": false}]";
    let chars = str_to_chars(text);
    let parsed = parse_tasks(&chars).expect("valid store");
    assert_eq!(parsed.len(), 1);
    assert_eq!(parsed[0].id, 3);
}

#[test]
fn encoded_store_is_json_serde_reads_it_back() {
    let tasks = vec![task(9, "mixed \"text\" with \\ and \n and \u{3b1}", true)];
    let encoded = encode_tasks(&tasks);
    let value: serde_json::Value = serde_json::from_str(&encoded).expect("encoder emits JSON");
    let arr = value.as_array().expect("top level is an array");
    assert_eq!(arr.len(), 1);
    let obj = arr[0].as_object().expect("record is an object");
    assert_eq!(obj.get("id").and_then(|v| v.as_u64()), Some(9));
    assert_eq!(
        obj.get("text").and_then(|v| v.as_str()),
        Some("mixed \"text\" with \\ and \n and \u{3b1}")
    );
    assert_eq!(obj.get("done").and_then(|v| v.as_bool()), Some(true));
}
