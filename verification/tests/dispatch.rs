use todolist::codec::{encode, load};
use todolist::dispatch::{AppState, Message};
use todolist::models::ListItem;

fn item(completed: bool, description: &str, datetime: &str) -> ListItem {
    ListItem {
        completed,
        description: String::from(description),
        datetime: String::from(datetime),
    }
}

/// Feeds one event and then the events it emits, in order, as the channel in
/// front of the loop would; writes to `storage` whenever a step asks for a
/// flush.
fn pump(state: &mut AppState, msg: Message, now: &str, storage: &mut Vec<u8>) {
    let mut queue = vec![msg];
    while !queue.is_empty() {
        let next = queue.remove(0);
        let r = state.step_at(next, now);
        if r.persist {
            *storage = encode(&state.store.tasks);
        }
        queue.extend(r.emitted);
    }
}

#[test]
fn startup_filter_shows_header_only() {
    let mut state = AppState::new(Vec::new()).expect("empty list loads");
    let mut storage = Vec::new();
    pump(&mut state, Message::Filter, "k0", &mut storage);
    assert_eq!(state.rows.len(), 1);
    assert_eq!(state.rows[0], "@C221DESCRIPTION\t@C221DATETIME\t@C221COMPLETED");
    assert!(state.ui.editing_enabled);
}

#[test]
fn create_with_blank_input_is_a_no_op() {
    let mut state = AppState::new(Vec::new()).expect("empty list loads");
    let mut storage = Vec::new();
    state.description_input = String::from("   ");
    pump(&mut state, Message::Create, "k1", &mut storage);
    assert_eq!(state.store.tasks.len(), 0);
    assert_eq!(state.rows.len(), 1);
    // the flush still happened, writing the unchanged (empty) list
    assert_eq!(load(&storage).expect("storage decodes").len(), 0);
    assert_eq!(state.description_input, "");
}

#[test]
fn create_displays_the_trimmed_description() {
    let mut state = AppState::new(Vec::new()).expect("empty list loads");
    let mut storage = Vec::new();
    state.description_input = String::from("  Write spec  ");
    pump(&mut state, Message::Create, "k1", &mut storage);
    assert_eq!(state.store.tasks[0].description, "Write spec");
    assert_eq!(state.rows[1], "Write spec\tk1\t❌");
    let back = load(&storage).expect("storage decodes");
    assert_eq!(back[0].description, "Write spec");
}

#[test]
fn delete_then_select_clears_the_selection() {
    let tasks = vec![item(false, "A", "k1"), item(false, "B", "k2")];
    let mut state = AppState::new(tasks).expect("unique keys");
    let mut storage = Vec::new();
    pump(&mut state, Message::Filter, "k0", &mut storage);
    assert_eq!(state.rows.len(), 3);
    // the user clicks the first task's row
    state.selected = 2;
    pump(&mut state, Message::Select, "k0", &mut storage);
    assert!(!state.ui.editing_enabled);
    assert_eq!(state.ui.displayed_description, "A");
    // deleting it leaves [B]; the emitted Filter and Select run after it
    state.selected = 2;
    pump(&mut state, Message::Delete, "k0", &mut storage);
    assert_eq!(state.store.tasks.len(), 1);
    assert_eq!(state.store.tasks[0].description, "B");
    assert!(state.ui.editing_enabled);
    assert!(!state.ui.update_enabled);
    assert!(!state.ui.delete_enabled);
    let back = load(&storage).expect("storage decodes");
    assert_eq!(back.len(), 1);
    assert_eq!(back[0].description, "B");
}

#[test]
fn update_flips_the_selected_task_only() {
    let tasks = vec![item(false, "A", "k1"), item(false, "B", "k2")];
    let mut state = AppState::new(tasks).expect("unique keys");
    let mut storage = Vec::new();
    pump(&mut state, Message::Filter, "k0", &mut storage);
    // the user clicks B's row and ticks the checkbox
    state.selected = 3;
    state.completed_input = true;
    pump(&mut state, Message::Update, "k0", &mut storage);
    assert!(!state.store.tasks[0].completed);
    assert!(state.store.tasks[1].completed);
    assert_eq!(state.rows[1], "A\tk1\t❌");
    assert_eq!(state.rows[2], "B\tk2\t✅");
}

#[test]
fn update_with_stale_selection_changes_nothing() {
    let tasks = vec![item(false, "A", "k1")];
    let mut state = AppState::new(tasks).expect("unique keys");
    let mut storage = Vec::new();
    pump(&mut state, Message::Filter, "k0", &mut storage);
    // the selection points at a row that no longer resolves to a task
    state.selected = 9;
    let r = state.step_at(Message::Update, "k0");
    assert!(r.lookup_miss);
    assert!(!r.persist);
    assert!(!state.store.tasks[0].completed);
}

#[test]
fn end_to_end_create_update_delete() {
    let stored: Vec<u8> = Vec::new();
    let tasks = load(&stored).expect("empty storage loads");
    let mut state = AppState::new(tasks).expect("empty list loads");
    let mut storage = Vec::new();
    pump(&mut state, Message::Filter, "k0", &mut storage);
    assert_eq!(state.rows.len(), 1);

    state.description_input = String::from("Write spec");
    pump(&mut state, Message::Create, "10-11-2024 • 12:13:14", &mut storage);
    assert_eq!(state.rows.len(), 2);
    assert_eq!(state.rows[1], "Write spec\t10-11-2024 • 12:13:14\t❌");

    state.selected = 2;
    state.completed_input = true;
    pump(&mut state, Message::Update, "k0", &mut storage);
    assert_eq!(state.rows[1], "Write spec\t10-11-2024 • 12:13:14\t✅");

    state.selected = 2;
    pump(&mut state, Message::Delete, "k0", &mut storage);
    assert_eq!(state.rows.len(), 1);
    assert_eq!(load(&storage).expect("storage decodes").len(), 0);
}

#[test]
fn step_with_the_clock_creates_a_task() {
    let mut state = AppState::new(Vec::new()).expect("empty list loads");
    state.description_input = String::from("A");
    let r = state.step(Message::Create);
    assert!(r.persist);
    assert_eq!(state.store.tasks.len(), 1);
    assert_eq!(state.store.tasks[0].description, "A");
    // the key is the clock's rendering: DD-MM-YYYY • HH:MM:SS
    let key: Vec<char> = state.store.tasks[0].datetime.chars().collect();
    assert_eq!(key.len(), 21);
    for i in [0, 1, 3, 4, 6, 7, 8, 9, 13, 14, 16, 17, 19, 20] {
        assert!(key[i].is_ascii_digit(), "position {i} should be a digit");
    }
    assert_eq!(key[2], '-');
    assert_eq!(key[5], '-');
    assert_eq!(key[10], ' ');
    assert_eq!(key[11], '•');
    assert_eq!(key[12], ' ');
    assert_eq!(key[15], ':');
    assert_eq!(key[18], ':');
}
