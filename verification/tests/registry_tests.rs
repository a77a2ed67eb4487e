use task_tracker::{Command, Priority, Task, TaskError, TasksManager, Timestamp};

fn ts(year: u16, month: u8, day: u8, hour: u8, minute: u8, second: u8, off_min: i16) -> Timestamp {
    Timestamp { year, month, day, hour, minute, second, off_min }
}

fn task(name: &str, desc: &str, p: Priority, t: Timestamp) -> Task {
    Task::with_time(name.to_owned(), desc.to_owned(), p, t)
}

#[test]
fn add_then_find_returns_added() {
    let mut reg = TasksManager::new();
    let t0 = ts(2024, 3, 5, 7, 8, 9, 60);
    reg.add_task(task("Buy milk", "2 liters", Priority::Medium, t0));
    let found = reg.find("Buy milk").expect("task should be found");
    assert_eq!(found.name, "Buy milk");
    assert_eq!(found.description, "2 liters");
    assert_eq!(found.priority, Priority::Medium);
    assert_eq!(found.add_time, t0);
}

#[test]
fn find_missing_returns_none() {
    let mut reg = TasksManager::new();
    reg.add_task(task("a", "", Priority::Low, ts(2024, 1, 1, 0, 0, 0, 0)));
    assert!(reg.find("b").is_none());
    assert!(reg.find_task("b").is_none());
}

#[test]
fn remove_after_add_then_find_misses() {
    let mut reg = TasksManager::new();
    reg.add_task(task("chore", "sweep", Priority::Low, ts(2024, 1, 1, 0, 0, 0, 0)));
    let msg = reg.remove_task("chore").expect("remove should succeed");
    assert_eq!(msg, "Task \"chore\" removed successfully.");
    assert!(reg.find("chore").is_none());
    assert_eq!(reg.list_all().len(), 0);
}

#[test]
fn remove_absent_fails_not_found() {
    let mut reg = TasksManager::new();
    assert_eq!(reg.remove_task("ghost"), Err(TaskError::NotFound));
}

#[test]
fn name_matching_is_case_sensitive() {
    let mut reg = TasksManager::new();
    reg.add_task(task("Write report", "quarterly", Priority::High, ts(2024, 6, 1, 9, 0, 0, 0)));
    assert_eq!(reg.remove_task("Write Report"), Err(TaskError::NotFound));
    assert!(reg.find("Write report").is_some());
}

#[test]
fn edit_updates_fields_but_keeps_add_time() {
    let mut reg = TasksManager::new();
    let original_time = ts(2023, 12, 31, 23, 59, 58, -330);
    let other_time = ts(2024, 1, 1, 0, 0, 1, 0);
    reg.add_task(task("old", "old text", Priority::Low, original_time));
    let msg = reg
        .edit_task("old", task("new", "new text", Priority::High, other_time))
        .expect("edit should succeed");
    assert_eq!(msg, "Task \"new\" updated successfully.");
    assert!(reg.find("old").is_none());
    let found = reg.find("new").expect("edited task should be found");
    assert_eq!(found.name, "new");
    assert_eq!(found.description, "new text");
    assert_eq!(found.priority, Priority::High);
    assert_eq!(found.add_time, original_time);
}

#[test]
fn edit_absent_fails_not_found() {
    let mut reg = TasksManager::new();
    let r = reg.edit_task("missing", task("x", "y", Priority::Low, ts(2024, 1, 1, 0, 0, 0, 0)));
    assert_eq!(r, Err(TaskError::NotFound));
    assert_eq!(reg.list_all().len(), 0);
}

#[test]
fn duplicate_names_first_match_wins() {
    let mut reg = TasksManager::new();
    reg.add_task(task("dup", "first", Priority::Low, ts(2024, 1, 1, 0, 0, 0, 0)));
    reg.add_task(task("dup", "second", Priority::High, ts(2024, 1, 2, 0, 0, 0, 0)));
    assert_eq!(reg.find("dup").unwrap().description, "first");
    assert_eq!(reg.find_task("dup"), Some(0));
    reg.remove_task("dup").unwrap();
    assert_eq!(reg.find("dup").unwrap().description, "second");
}

#[test]
fn list_all_keeps_insertion_order() {
    let mut reg = TasksManager::new();
    for name in ["one", "two", "three"] {
        reg.add_task(task(name, "", Priority::Low, ts(2024, 1, 1, 0, 0, 0, 0)));
    }
    let names: Vec<&str> = reg.list_all().iter().map(|t| t.name.as_str()).collect();
    assert_eq!(names, vec!["one", "two", "three"]);
}

#[test]
fn priority_labels() {
    assert_eq!(Priority::Low.to_string(), "Low");
    assert_eq!(Priority::Medium.to_string(), "Medium");
    assert_eq!(Priority::High.to_string(), "High");
}

#[test]
fn priority_from_input_is_case_insensitive_with_low_default() {
    assert_eq!(Priority::from_input("low"), (Priority::Low, true));
    assert_eq!(Priority::from_input("LOW"), (Priority::Low, true));
    assert_eq!(Priority::from_input("Medium"), (Priority::Medium, true));
    assert_eq!(Priority::from_input("hIgH"), (Priority::High, true));
    assert_eq!(Priority::from_input("urgent"), (Priority::Low, false));
    assert_eq!(Priority::from_input(""), (Priority::Low, false));
}

#[test]
fn command_from_menu_index() {
    assert_eq!(Command::from_input("1"), Some(Command::AddTask));
    assert_eq!(Command::from_input("2"), Some(Command::FindTask));
    assert_eq!(Command::from_input("3"), Some(Command::EditTask));
    assert_eq!(Command::from_input("4"), Some(Command::RemoveTask));
    assert_eq!(Command::from_input("5"), Some(Command::PrintTasks));
    assert_eq!(Command::from_input("6"), Some(Command::StoreToFile));
    assert_eq!(Command::from_input("7"), Some(Command::ReadFromFile));
    assert_eq!(Command::from_input("8"), None);
    assert_eq!(Command::from_input(""), None);
}

#[test]
fn error_messages_name_the_kind() {
    assert_eq!(TaskError::NotFound.message(), "not found");
    assert_eq!(TaskError::AlreadyExists.message(), "already exists");
    assert_eq!(TaskError::IoError.message(), "I/O error");
    assert_eq!(TaskError::SerializationError.message(), "serialization error");
    assert_eq!(TaskError::DeserializationError.message(), "deserialization error");
}

#[test]
fn new_task_captures_a_calendar_time() {
    let t = Task::new("n".to_owned(), "d".to_owned(), Priority::Low);
    assert_eq!(t.name, "n");
    assert_eq!(t.description, "d");
    assert_eq!(t.priority, Priority::Low);
    assert!((1..=12).contains(&t.add_time.month));
    assert!((1..=31).contains(&t.add_time.day));
    assert!(t.add_time.hour <= 23);
    assert!(t.add_time.year >= 2020);
}

#[test]
fn render_produces_the_labelled_block() {
    let t = task("Pay rent", "by bank transfer", Priority::High, ts(2024, 3, 5, 7, 8, 9, 0));
    let expected = "Task Name: Pay rent\nDescription: by bank transfer\nPriority: High\nAdded on: 05-03-2024 07:08:09\n-------------------------\n";
    assert_eq!(t.render(), expected);
}
