use todolist::codec::{decode, encode, load};
use todolist::models::ListItem;

fn item(completed: bool, description: &str, datetime: &str) -> ListItem {
    ListItem {
        completed,
        description: String::from(description),
        datetime: String::from(datetime),
    }
}

#[test]
fn round_trip_two_tasks() {
    let list = vec![
        item(false, "Buy Milk", "01-02-2003 • 04:05:06"),
        item(true, "Süß & weiß ✓", "07-08-2009 • 10:11:12"),
    ];
    let bytes = encode(&list);
    let back = decode(&bytes).expect("decoding an encoding must succeed");
    assert_eq!(back.len(), 2);
    for (a, b) in list.iter().zip(back.iter()) {
        assert_eq!(a.completed, b.completed);
        assert_eq!(a.description, b.description);
        assert_eq!(a.datetime, b.datetime);
    }
}

#[test]
fn round_trip_empty_list() {
    let list: Vec<ListItem> = Vec::new();
    let bytes = encode(&list);
    let back = decode(&bytes).expect("decoding an encoding must succeed");
    assert_eq!(back.len(), 0);
}

#[test]
fn encode_empty_list_bytes() {
    let list: Vec<ListItem> = Vec::new();
    assert_eq!(encode(&list), vec![0u8; 8]);
}

#[test]
fn encode_one_task_bytes() {
    let list = vec![item(true, "a", "b")];
    let mut expected = vec![1u8, 0, 0, 0, 0, 0, 0, 0];
    expected.push(1);
    expected.extend_from_slice(&[1, 0, 0, 0, 0, 0, 0, 0]);
    expected.push(b'a');
    expected.extend_from_slice(&[1, 0, 0, 0, 0, 0, 0, 0]);
    expected.push(b'b');
    assert_eq!(encode(&list), expected);
}

#[test]
fn load_of_empty_file_is_empty_list() {
    let back = load(&[]).expect("an empty file must load");
    assert_eq!(back.len(), 0);
}

#[test]
fn decode_rejects_truncated_input() {
    assert!(decode(&[1, 2, 3]).is_none());
}

#[test]
fn decode_rejects_trailing_bytes() {
    let mut bytes = encode(&Vec::new());
    bytes.push(0);
    assert!(decode(&bytes).is_none());
}

#[test]
fn decode_rejects_bad_completion_byte() {
    let mut bytes = vec![1u8, 0, 0, 0, 0, 0, 0, 0];
    bytes.push(2);
    bytes.extend_from_slice(&[0, 0, 0, 0, 0, 0, 0, 0]);
    bytes.extend_from_slice(&[0, 0, 0, 0, 0, 0, 0, 0]);
    assert!(decode(&bytes).is_none());
}

#[test]
fn decode_rejects_invalid_utf8() {
    let mut bytes = vec![1u8, 0, 0, 0, 0, 0, 0, 0];
    bytes.push(0);
    bytes.extend_from_slice(&[1, 0, 0, 0, 0, 0, 0, 0]);
    bytes.push(0xFF);
    bytes.extend_from_slice(&[0, 0, 0, 0, 0, 0, 0, 0]);
    assert!(decode(&bytes).is_none());
}

#[test]
fn decode_rejects_count_larger_than_data() {
    let bytes = vec![9u8, 0, 0, 0, 0, 0, 0, 0];
    assert!(decode(&bytes).is_none());
}
