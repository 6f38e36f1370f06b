use rufi::inbound::InboundMessage;
use rufi::outbound::OutboundMessage;
use rufi::path::Path;
use rufi::valuetree::ValueTree;

fn make_path(tokens: &[&str]) -> Path {
    Path::new(tokens.iter().map(|t| t.to_string()).collect())
}

#[test]
fn test_outbound_message_append_and_get() {
    let mut msg = OutboundMessage::empty(42u32);
    let path = make_path(&["foo"]);
    msg.append(&path, vec![123u8]);

    assert_eq!(msg.get(&path), Some(&vec![123u8]));
    assert_eq!(msg.get(&make_path(&["bar"])), None);
    assert_eq!(msg.sender, 42u32);
}

#[test]
fn test_value_tree_get_and_new() {
    let path = make_path(&["x"]);
    let vt = ValueTree::new(vec![(path.clone(), vec![99u8])]);

    assert_eq!(vt.get(&path), Some(vec![99u8]));
    assert_eq!(vt.get(&make_path(&["y"])), None);
    assert!(vt.contains_key(&path));
}

#[test]
fn test_value_tree_empty() {
    let vt = ValueTree::empty();
    let path = make_path(&["z"]);
    assert!(vt.get(&path).is_none());
}

#[test]
fn test_inbound_message_get_and_get_at_path() {
    let path = make_path(&["foo"]);
    let vt1 = ValueTree::new(vec![(path.clone(), vec![1u8])]);
    let vt2 = ValueTree::new(vec![(path.clone(), vec![2u8])]);
    let inbound = InboundMessage::new(vec![(10u8, vt1), (20u8, vt2)]);

    // get
    assert!(inbound.get(&10u8).is_some());
    assert!(inbound.get(&30u8).is_none());

    // get_at_path
    let found = inbound.get_at_path(&path);
    assert_eq!(found.len(), 2);
    assert_eq!(found[0], (10u8, vec![1u8]));
    assert_eq!(found[1], (20u8, vec![2u8]));
}

#[test]
fn test_inbound_message_devices_at_path() {
    let path = make_path(&["foo"]);
    let vt1 = ValueTree::new(vec![(path.clone(), vec![0u8])]);
    let vt2 = ValueTree::new(vec![(path.clone(), vec![0u8])]);
    let vt3 = ValueTree::empty();
    // vt3 does not have the path

    let inbound = InboundMessage::new(vec![(1u8, vt1), (2u8, vt2), (3u8, vt3)]);
    let devices = inbound.devices_at_path(&path);

    assert_eq!(devices.len(), 2);
    assert!(devices.contains(&1u8));
    assert!(devices.contains(&2u8));
    assert!(!devices.contains(&3u8));
}

#[test]
fn inbound_iteration_is_in_identifier_order() {
    let path = make_path(&["p"]);
    let vt_high = ValueTree::new(vec![(path.clone(), vec![9u8])]);
    let vt_low = ValueTree::new(vec![(path.clone(), vec![3u8])]);
    let inbound = InboundMessage::new(vec![(20u8, vt_high), (10u8, vt_low)]);
    let found = inbound.get_at_path(&path);
    assert_eq!(found, vec![(10u8, vec![3u8]), (20u8, vec![9u8])]);
}

#[test]
fn outbound_append_overwrites_the_path() {
    let mut msg = OutboundMessage::empty(0u8);
    let path = make_path(&["p"]);
    msg.append(&path, vec![1u8]);
    msg.append(&path, vec![2u8]);
    assert_eq!(msg.at(&path), Some(&vec![2u8]));
}

#[test]
fn value_tree_keeps_latest_entry_per_path() {
    let path = make_path(&["q"]);
    let vt = ValueTree::new(vec![(path.clone(), vec![1u8]), (path.clone(), vec![2u8])]);
    assert_eq!(vt.get(&path), Some(vec![2u8]));
}
