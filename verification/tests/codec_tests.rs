use task_tracker::{Priority, Task, TaskError, TasksManager, Timestamp};

fn ts(year: u16, month: u8, day: u8, hour: u8, minute: u8, second: u8, off_min: i16) -> Timestamp {
    Timestamp { year, month, day, hour, minute, second, off_min }
}

fn task(name: &str, desc: &str, p: Priority, t: Timestamp) -> Task {
    Task::with_time(name.to_owned(), desc.to_owned(), p, t)
}

#[test]
fn store_of_empty_registry_is_empty_array() {
    let reg = TasksManager::new();
    assert_eq!(reg.store_to_file(false).unwrap(), "[]");
}

#[test]
fn store_on_existing_path_fails_already_exists() {
    let mut reg = TasksManager::new();
    reg.add_task(task("a", "b", Priority::Low, ts(2024, 1, 1, 0, 0, 0, 0)));
    assert_eq!(reg.store_to_file(true), Err(TaskError::AlreadyExists));
}

#[test]
fn load_of_missing_file_fails_not_found_and_keeps_registry() {
    let mut reg = TasksManager::new();
    reg.add_task(task("kept", "still here", Priority::Low, ts(2024, 1, 1, 0, 0, 0, 0)));
    assert_eq!(reg.load_from_file(None), Err(TaskError::NotFound));
    assert_eq!(reg.list_all().len(), 1);
    assert_eq!(reg.find("kept").unwrap().description, "still here");
}

#[test]
fn exact_json_of_one_task() {
    let mut reg = TasksManager::new();
    reg.add_task(task("Buy milk", "2 liters", Priority::Low, ts(2024, 3, 5, 7, 8, 9, 60)));
    let expected = "[{\"name\":\"Buy milk\",\"description\":\"2 liters\",\"priority\":\"Low\",\"add_time\":\"2024-03-05T07:08:09+01:00\"}]";
    assert_eq!(reg.store_to_file(false).unwrap(), expected);
}

#[test]
fn exact_json_with_negative_offset_and_escapes() {
    let mut reg = TasksManager::new();
    reg.add_task(task("say \"hi\"", "a\\b\nc", Priority::High, ts(987, 12, 31, 23, 59, 58, -330)));
    let expected = "[{\"name\":\"say \\\"hi\\\"\",\"description\":\"a\\\\b\\u000ac\",\"priority\":\"High\",\"add_time\":\"0987-12-31T23:59:58-05:30\"}]";
    assert_eq!(reg.store_to_file(false).unwrap(), expected);
}

#[test]
fn round_trip_empty_registry() {
    let reg = TasksManager::new();
    let content = reg.store_to_file(false).unwrap();
    let mut fresh = TasksManager::new();
    fresh.add_task(task("junk", "", Priority::Low, ts(2024, 1, 1, 0, 0, 0, 0)));
    let msg = fresh.load_from_file(Some(&content)).unwrap();
    assert_eq!(msg, "Tasks loaded successfully.");
    assert_eq!(fresh.list_all().len(), 0);
}

#[test]
fn round_trip_keeps_order_and_fields() {
    let mut reg = TasksManager::new();
    let tasks = [
        task("plain", "nothing special", Priority::Low, ts(2024, 3, 5, 7, 8, 9, 60)),
        task("quotes \"q\"", "back\\slash", Priority::Medium, ts(1999, 11, 30, 0, 0, 0, 0)),
        task("newline\nand tab\t", "control\u{0001}char", Priority::High, ts(2031, 6, 15, 12, 30, 45, -720)),
        task("unicode \u{00e9}\u{65e5}\u{672c}", "caf\u{00e9}", Priority::Low, ts(2024, 2, 29, 23, 0, 1, 1439)),
        task("plain", "duplicate name", Priority::Medium, ts(2024, 3, 5, 7, 8, 10, 60)),
    ];
    for t in &tasks {
        reg.add_task(task(&t.name, &t.description, t.priority, t.add_time));
    }
    let content = reg.store_to_file(false).unwrap();
    let mut fresh = TasksManager::new();
    fresh.load_from_file(Some(&content)).unwrap();
    let loaded = fresh.list_all();
    assert_eq!(loaded.len(), tasks.len());
    for (a, b) in tasks.iter().zip(loaded.iter()) {
        assert_eq!(a.name, b.name);
        assert_eq!(a.description, b.description);
        assert_eq!(a.priority, b.priority);
        assert_eq!(a.add_time, b.add_time);
    }
}

#[test]
fn load_accepts_standard_escapes() {
    let content = "[{\"name\":\"a\\/b\\n\\t\\r\\b\\f\",\"description\":\"\\u0041\\u00e9\",\"priority\":\"Low\",\"add_time\":\"2024-01-01T00:00:00+00:00\"}]";
    let mut reg = TasksManager::new();
    reg.load_from_file(Some(content)).unwrap();
    let t = &reg.list_all()[0];
    assert_eq!(t.name, "a/b\n\t\r\u{0008}\u{000C}");
    assert_eq!(t.description, "A\u{00e9}");
}

#[test]
fn malformed_content_fails_deserialization_and_keeps_registry() {
    let bad = [
        "",
        "not json",
        "[",
        "[]x",
        "[{}]",
        "{\"name\":\"a\"}",
        "[{\"name\":\"a\",\"description\":\"b\",\"priority\":\"Low\",\"add_time\":\"2024-01-01T00:00:00+00:00\"}",
        "[{\"name\":\"a\",\"description\":\"b\",\"priority\":\"Urgent\",\"add_time\":\"2024-01-01T00:00:00+00:00\"}]",
        "[{\"name\":\"a\",\"description\":\"b\",\"priority\":\"Low\",\"add_time\":\"2024-13-01T00:00:00+00:00\"}]",
        "[{\"name\":\"a\",\"description\":\"b\",\"priority\":\"Low\",\"add_time\":\"2024-01-01T00:00:00\"}]",
        "[{\"name\":\"unterminated,\"description\":\"b\",\"priority\":\"Low\",\"add_time\":\"2024-01-01T00:00:00+00:00\"}]",
        "[{\"name\":\"a\",\"name\":\"b\",\"description\":\"b\",\"priority\":\"Low\",\"add_time\":\"2024-01-01T00:00:00+00:00\"}]",
        "[{\"name\":\"a\",\"description\":\"b\",\"priority\":\"Low\",\"extra\":\"x\",\"add_time\":\"2024-01-01T00:00:00+00:00\"}]",
        "[{\"name\":\"a\",\"description\":\"b\",\"priority\":3,\"add_time\":\"2024-01-01T00:00:00+00:00\"}]",
        "[{\"name\":\"\\ud800\",\"description\":\"b\",\"priority\":\"Low\",\"add_time\":\"2024-01-01T00:00:00+00:00\"}]",
        "[{\"name\":\"a\",\"description\":\"b\",\"priority\":\"Low\",\"add_time\":\"2023-02-29T00:00:00+00:00\"}]",
        "[{\"name\":\"a\",\"description\":\"b\",\"priority\":\"Low\",\"add_time\":\"2024-04-31T00:00:00+00:00\"}]",
        "[{\"name\":\"a\",\"description\":\"b\",\"priority\":\"Low\",\"add_time\":\"2024-01-01T00:00:00.+00:00\"}]",
    ];
    for content in bad {
        let mut reg = TasksManager::new();
        reg.add_task(task("kept", "", Priority::Low, ts(2024, 1, 1, 0, 0, 0, 0)));
        assert_eq!(
            reg.load_from_file(Some(content)),
            Err(TaskError::DeserializationError),
            "content should be rejected: {content}"
        );
        assert_eq!(reg.list_all().len(), 1, "registry should be unchanged for: {content}");
    }
}

#[test]
fn saved_file_is_valid_json_for_serde() {
    let mut reg = TasksManager::new();
    reg.add_task(task("say \"hi\"\n", "tab\there", Priority::Medium, ts(2024, 3, 5, 7, 8, 9, 90)));
    reg.add_task(task("second", "", Priority::High, ts(2024, 3, 6, 0, 0, 0, 0)));
    let content = reg.store_to_file(false).unwrap();
    let value: serde_json::Value = serde_json::from_str(&content).expect("output should be JSON");
    let arr = value.as_array().expect("output should be an array");
    assert_eq!(arr.len(), 2);
    assert_eq!(arr[0]["name"].as_str().unwrap(), "say \"hi\"\n");
    assert_eq!(arr[0]["description"].as_str().unwrap(), "tab\there");
    assert_eq!(arr[0]["priority"].as_str().unwrap(), "Medium");
    assert_eq!(arr[0]["add_time"].as_str().unwrap(), "2024-03-05T07:08:09+01:30");
    assert_eq!(arr[1]["name"].as_str().unwrap(), "second");
}

#[test]
fn load_accepts_whitespace_between_tokens() {
    let mut reg = TasksManager::new();
    assert!(reg.load_from_file(Some(" [ ] ")).is_ok());
    assert_eq!(reg.list_all().len(), 0);
    let pretty = "[\n  {\n    \"name\": \"a\",\n    \"description\": \"b\",\n    \"priority\": \"High\",\n    \"add_time\": \"2024-03-05T07:08:09+01:00\"\n  }\n]\n";
    reg.load_from_file(Some(pretty)).unwrap();
    let t = &reg.list_all()[0];
    assert_eq!(t.name, "a");
    assert_eq!(t.description, "b");
    assert_eq!(t.priority, Priority::High);
    assert_eq!(t.add_time, ts(2024, 3, 5, 7, 8, 9, 60));
}

#[test]
fn load_accepts_members_in_any_order() {
    let content = "[{\"description\":\"b\",\"add_time\":\"2024-01-01T00:00:00+00:00\",\"priority\":\"Medium\",\"name\":\"a\"}]";
    let mut reg = TasksManager::new();
    reg.load_from_file(Some(content)).unwrap();
    let t = &reg.list_all()[0];
    assert_eq!(t.name, "a");
    assert_eq!(t.description, "b");
    assert_eq!(t.priority, Priority::Medium);
    assert_eq!(t.add_time, ts(2024, 1, 1, 0, 0, 0, 0));
}

#[test]
fn load_accepts_fractional_seconds_and_z_offset() {
    let content = "[{\"name\":\"a\",\"description\":\"b\",\"priority\":\"Low\",\"add_time\":\"2024-03-05T07:08:09.123456789Z\"}]";
    let mut reg = TasksManager::new();
    reg.load_from_file(Some(content)).unwrap();
    assert_eq!(reg.list_all()[0].add_time, ts(2024, 3, 5, 7, 8, 9, 0));
    let negative = "[{\"name\":\"a\",\"description\":\"b\",\"priority\":\"Low\",\"add_time\":\"1999-12-31T23:59:58.5-05:30\"}]";
    let mut reg2 = TasksManager::new();
    reg2.load_from_file(Some(negative)).unwrap();
    assert_eq!(reg2.list_all()[0].add_time, ts(1999, 12, 31, 23, 59, 58, -330));
}

#[test]
fn load_accepts_unicode_escapes_and_surrogate_pairs() {
    let content = "[{\"name\":\"\\u0101 \\ud83d\\ude00\",\"description\":\"\\u00e9\",\"priority\":\"Low\",\"add_time\":\"2024-01-01T00:00:00+00:00\"}]";
    let mut reg = TasksManager::new();
    reg.load_from_file(Some(content)).unwrap();
    let t = &reg.list_all()[0];
    assert_eq!(t.name, "\u{0101} \u{1F600}");
    assert_eq!(t.description, "\u{00e9}");
}

#[test]
fn load_replaces_previous_contents_wholesale() {
    let mut source = TasksManager::new();
    source.add_task(task("only", "task", Priority::Low, ts(2024, 5, 5, 5, 5, 5, 0)));
    let content = source.store_to_file(false).unwrap();
    let mut reg = TasksManager::new();
    reg.add_task(task("stale", "", Priority::High, ts(2020, 1, 1, 0, 0, 0, 0)));
    reg.add_task(task("older", "", Priority::High, ts(2020, 1, 2, 0, 0, 0, 0)));
    reg.load_from_file(Some(&content)).unwrap();
    assert_eq!(reg.list_all().len(), 1);
    assert_eq!(reg.find("only").unwrap().description, "task");
    assert!(reg.find("stale").is_none());
}
