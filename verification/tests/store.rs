use todolist::models::ListItem;
use todolist::store::{blank, Store};

fn item(completed: bool, description: &str, datetime: &str) -> ListItem {
    ListItem {
        completed,
        description: String::from(description),
        datetime: String::from(datetime),
    }
}

#[test]
fn create_prepends() {
    let mut store = Store::empty();
    assert!(store.create(String::from("A"), String::from("k1")));
    assert!(store.create(String::from("B"), String::from("k2")));
    assert_eq!(store.tasks.len(), 2);
    assert_eq!(store.tasks[0].description, "B");
    assert_eq!(store.tasks[1].description, "A");
    assert!(!store.tasks[0].completed);
    assert!(!store.tasks[1].completed);
}

#[test]
fn create_rejects_whitespace_only() {
    let mut store = Store::empty();
    assert!(!store.create(String::from("   "), String::from("k1")));
    assert_eq!(store.tasks.len(), 0);
    assert!(!store.create(String::from(""), String::from("k1")));
    assert_eq!(store.tasks.len(), 0);
    assert!(!store.create(String::from(" \t\n\u{00A0}"), String::from("k1")));
    assert_eq!(store.tasks.len(), 0);
}

#[test]
fn create_stores_the_trimmed_description() {
    let mut store = Store::empty();
    assert!(store.create(String::from("  A b\t"), String::from("k1")));
    assert_eq!(store.tasks[0].description, "A b");
    assert!(store.create(String::from("C"), String::from("k2")));
    assert_eq!(store.tasks[0].description, "C");
}

#[test]
fn create_rejects_taken_key() {
    let mut store = Store::empty();
    assert!(store.create(String::from("A"), String::from("k1")));
    assert!(!store.create(String::from("B"), String::from("k1")));
    assert_eq!(store.tasks.len(), 1);
    assert_eq!(store.tasks[0].description, "A");
}

#[test]
fn update_flips_only_the_targeted_task() {
    let mut store = Store::from_tasks(vec![
        item(false, "A", "k1"),
        item(false, "B", "k2"),
    ])
    .expect("unique keys");
    assert!(store.update_completed(&String::from("k2"), true));
    assert!(!store.tasks[0].completed);
    assert_eq!(store.tasks[0].description, "A");
    assert!(store.tasks[1].completed);
    assert_eq!(store.tasks[1].description, "B");
}

#[test]
fn update_misses_unknown_key() {
    let mut store = Store::from_tasks(vec![item(false, "A", "k1")]).expect("unique keys");
    assert!(!store.update_completed(&String::from("k9"), true));
    assert!(!store.tasks[0].completed);
    assert_eq!(store.tasks.len(), 1);
}

#[test]
fn delete_removes_only_the_targeted_task() {
    let mut store = Store::from_tasks(vec![
        item(false, "A", "k1"),
        item(false, "B", "k2"),
    ])
    .expect("unique keys");
    assert!(store.delete(&String::from("k1")));
    assert_eq!(store.tasks.len(), 1);
    assert_eq!(store.tasks[0].description, "B");
}

#[test]
fn delete_misses_unknown_key() {
    let mut store = Store::from_tasks(vec![item(false, "A", "k1")]).expect("unique keys");
    assert!(!store.delete(&String::from("k9")));
    assert_eq!(store.tasks.len(), 1);
}

#[test]
fn from_tasks_rejects_duplicate_keys() {
    assert!(Store::from_tasks(vec![
        item(false, "A", "k1"),
        item(false, "B", "k1"),
    ])
    .is_none());
}

#[test]
fn find_returns_first_position() {
    let store = Store::from_tasks(vec![
        item(false, "A", "k1"),
        item(false, "B", "k2"),
    ])
    .expect("unique keys");
    assert_eq!(store.find(&String::from("k2")), Some(1));
    assert_eq!(store.find(&String::from("k9")), None);
}

#[test]
fn blank_recognises_whitespace() {
    assert!(blank(""));
    assert!(blank(" \t\r\n"));
    assert!(!blank(" a "));
}
