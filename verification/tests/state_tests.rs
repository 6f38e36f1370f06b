use rufi::path::Path;
use rufi::state::State;
use rufi::state::StateTag;
use rufi::state::StateValue;

fn make_path(id: u32) -> Path {
    Path::new(vec![id.to_string()])
}

#[test]
fn test_new_and_default() {
    let s1 = State::new();
    let s2 = State::default();
    assert!(s1.is_empty());
    assert!(s2.is_empty());
}

#[test]
fn test_insert_and_get_success() {
    let mut state = State::new();
    let path = make_path(1);
    state.insert(path.clone(), 42u32);
    let value = state.get::<u32>(&path).unwrap();
    assert_eq!(value, Some(42u32));
}

#[test]
fn test_get_none_for_missing_path() {
    let state = State::new();
    let path = make_path(3);
    assert_eq!(state.get::<u32>(&path).unwrap(), None);
}

#[test]
fn test_from_snapshot() {
    let path = make_path(4);
    let snapshot = vec![(path.clone(), StateValue::U8(99))];
    let state = State::from_snapshot(snapshot);
    assert_eq!(state.get::<u8>(&path).unwrap(), Some(99u8));
}

#[test]
fn test_get_reports_type_mismatch() {
    let mut state = State::new();
    let path = make_path(2);
    state.insert(path.clone(), 42u32);
    let err = state.get::<String>(&path).unwrap_err();
    assert_eq!(err.expected, StateTag::Text);
    assert_eq!(err.path, path);
}

#[test]
fn test_mismatch_description_names_path_and_type() {
    let mut state = State::new();
    let path = Path::new(vec!["repeat:0".to_string()]);
    state.insert(path.clone(), 42i32);
    let err = state.get::<String>(&path).unwrap_err();
    assert_eq!(err.describe(), "type mismatch at path repeat:0, expected text");
}

#[test]
fn test_insert_overwrites() {
    let mut state = State::new();
    let path = make_path(5);
    state.insert(path.clone(), 1i64);
    state.insert(path.clone(), 2i64);
    assert_eq!(state.get::<i64>(&path).unwrap(), Some(2i64));
}

#[test]
fn test_stores_text_and_bool() {
    let mut state = State::new();
    let p1 = make_path(6);
    let p2 = make_path(7);
    state.insert(p1.clone(), String::from("hello"));
    state.insert(p2.clone(), true);
    assert_eq!(state.get::<String>(&p1).unwrap(), Some(String::from("hello")));
    assert_eq!(state.get::<bool>(&p2).unwrap(), Some(true));
}
