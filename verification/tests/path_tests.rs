use std::collections::BTreeSet;
use std::collections::HashSet;

use rufi::path::InvocationCoordinate;
use rufi::path::Path;

fn make_path(tokens: &[&str]) -> Path {
    Path::new(tokens.iter().map(|t| t.to_string()).collect())
}

#[test]
fn test_path_equality_and_hash() {
    let p1 = make_path(&["a", "b"]);
    let p2 = make_path(&["a", "b"]);
    let p3 = make_path(&["a", "c"]);
    assert_eq!(p1, p2);
    assert_ne!(p1, p3);

    let mut set = BTreeSet::new();
    set.insert(p1);
    assert!(set.contains(&p2));
    assert!(!set.contains(&p3));
}

#[test]
fn test_path_ordering() {
    let p1 = make_path(&["a"]);
    let p2 = make_path(&["a", "b"]);
    let p3 = make_path(&["b"]);
    assert!(p1 < p2);
    assert!(p2 < p3);
}

#[test]
fn path_test_path_equality_and_hash() {
    let p1 = make_path(&["a", "b"]);
    let p2 = make_path(&["a", "b"]);
    let p3 = make_path(&["a", "c"]);
    assert_eq!(p1, p2);
    assert_ne!(p1, p3);

    let mut set = BTreeSet::new();
    set.insert(p1);
    assert!(set.contains(&p2));
    assert!(!set.contains(&p3));
}

#[test]
fn path_test_path_ordering() {
    let p1 = make_path(&["a"]);
    let p2 = make_path(&["a", "b"]);
    let p3 = make_path(&["b"]);
    assert!(p1 < p2);
    assert!(p2 < p3);
}

#[test]
fn messages_test_path_equality_and_hash() {
    let p1 = make_path(&["a", "b"]);
    let p2 = make_path(&["a", "b"]);
    let p3 = make_path(&["a", "c"]);
    assert_eq!(p1, p2);
    assert_ne!(p1, p3);

    let mut set = HashSet::new();
    set.insert(p1);
    assert!(set.contains(&p2));
    assert!(!set.contains(&p3));
}

#[test]
fn messages_test_path_ordering() {
    let p1 = make_path(&["a"]);
    let p2 = make_path(&["a", "b"]);
    let p3 = make_path(&["b"]);
    assert!(p1 < p2);
    assert!(p2 < p3);
}

#[test]
fn path_textual_form_joins_tokens_with_slashes() {
    let p = make_path(&["branch[true]:0", "share:0"]);
    assert_eq!(p.text(), "branch[true]:0/share:0");
    assert_eq!(make_path(&[]).text(), "");
    assert_eq!(make_path(&["neighboring:0"]).text(), "neighboring:0");
}

#[test]
fn coordinate_render_is_token_colon_counter() {
    assert_eq!(InvocationCoordinate::new(0, "neighboring").render(), "neighboring:0");
    assert_eq!(InvocationCoordinate::new(4294967295, "share").render(), "share:4294967295");
}

#[test]
fn decimal_rendering_is_exact() {
    assert_eq!(rufi::text::u32_to_decimal(0), "0");
    assert_eq!(rufi::text::u32_to_decimal(3057), "3057");
    assert_eq!(rufi::text::u32_to_decimal(10), "10");
}
