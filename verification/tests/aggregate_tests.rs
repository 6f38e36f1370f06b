use rufi::aggregate::AggregateError;
use rufi::aggregate::VM;
use rufi::field::Field;
use rufi::inbound::InboundMessage;
use rufi::json::JsonSerializer;
use rufi::path::Path;
use rufi::state::State;
use rufi::state::StateTag;
use rufi::state::StateValue;
use rufi::valuetree::ValueTree;

fn make_path(tokens: &[&str]) -> Path {
    Path::new(tokens.iter().map(|t| t.to_string()).collect())
}

fn json_u32(v: u32) -> Vec<u8> {
    serde_json::to_vec(&v).unwrap()
}

fn json_i32(v: i32) -> Vec<u8> {
    serde_json::to_vec(&v).unwrap()
}

#[test]
fn test_vm_creation() {
    let vm: VM<u32, JsonSerializer> = VM::new(42u32, JsonSerializer);
    assert_eq!(vm.local_id, 42);
}

#[test]
fn repeat_should_return_initial_on_first_call() {
    let mut vm: VM<u32, JsonSerializer> = VM::new(1u32, JsonSerializer);
    let initial_value = 10;
    let result = vm.repeat(initial_value, |state| state + 1).unwrap();
    assert_eq!(result, initial_value + 1);
}

#[test]
fn repeat_should_use_last_available_state() {
    let state_entries = vec![(make_path(&["repeat:0"]), StateValue::I32(20))];
    let state = State::from_snapshot(state_entries);
    let mut vm: VM<u32, JsonSerializer> = VM::new_with_state(1, JsonSerializer, state);
    let initial_value = 10;
    let result = vm.repeat(initial_value, |prev| prev + 1).unwrap();
    assert_eq!(result, 21); // 20 from state + 1 from evolution
    vm.prepare_new_round(InboundMessage::new(vec![]));
    let next_result = vm.repeat(initial_value, |prev| prev + 1).unwrap();
    assert_eq!(next_result, 22); // 21 from previous + 1 from evolution
}

#[test]
fn test_repeat_maintains_state_consistency() {
    let mut vm: VM<u8, JsonSerializer> = VM::new(1u8, JsonSerializer);

    // First round uses the initial value
    let result1 = vm.repeat(10i32, |prev| prev + 1).unwrap();
    assert_eq!(result1, 11);

    // Next round uses the stored state
    vm.prepare_new_round(InboundMessage::new(vec![]));
    let result2 = vm.repeat(10i32, |prev| prev + 1).unwrap();
    assert_eq!(result2, 12); // Should be 11 + 1, not 10 + 1
}

#[test]
fn repeat_reports_type_mismatch() {
    let mut vm: VM<u8, JsonSerializer> = VM::new(1u8, JsonSerializer);
    let _ = vm.repeat(10i32, |prev| prev + 1).unwrap();
    vm.prepare_new_round(InboundMessage::new(vec![]));
    let err = vm.repeat(String::from("hello"), |s| s).unwrap_err();
    assert_eq!(err.path, make_path(&["repeat:0"]));
    assert_eq!(err.expected, StateTag::Text);
}

#[test]
fn neighboring_should_return_a_field_with_only_local_value() {
    let mut vm: VM<u32, JsonSerializer> = VM::new(1u32, JsonSerializer);
    let value = 100u32;
    let field = vm.neighboring(value).unwrap();
    let expected_field = Field::new(value, vec![]);
    assert_eq!(field, expected_field);
}

#[test]
fn neighboring_should_create_a_field_with_aligned_devices() {
    let path = make_path(&["neighboring:0"]);
    let device_1 = ValueTree::new(vec![(path.clone(), json_u32(1))]);
    let device_2 = ValueTree::new(vec![(path, json_u32(2))]);
    let inbound = InboundMessage::new(vec![(1u32, device_1), (2u32, device_2)]);
    let mut vm: VM<u32, JsonSerializer> = VM::new(0u32, JsonSerializer);
    vm.prepare_new_round(inbound);
    let field = vm.neighboring(1u32).unwrap();
    let expected_field = Field::new(1u32, vec![(1u32, 1u32), (2u32, 2u32)]);
    assert_eq!(field, expected_field);
}

#[test]
fn neighboring_emits_the_serialized_value() {
    let path = make_path(&["neighboring:0"]);
    let device_1 = ValueTree::new(vec![(path.clone(), json_i32(7))]);
    let inbound = InboundMessage::new(vec![(1u32, device_1)]);
    let mut vm: VM<u32, JsonSerializer> = VM::new(0u32, JsonSerializer);
    vm.prepare_new_round(inbound);
    let field = vm.neighboring(3i32).unwrap();
    assert_eq!(field.local(), &3i32);
    assert_eq!(field.get(&1u32), Some(&7i32));
    let outbound = vm.get_outbound();
    assert_eq!(outbound.sender, 0u32);
    assert_eq!(outbound.at(&path), Some(&json_i32(3)));
}

#[test]
fn neighboring_siblings_emit_distinct_counters() {
    let mut vm: VM<u32, JsonSerializer> = VM::new(0u32, JsonSerializer);
    vm.neighboring(1i32).unwrap();
    vm.neighboring(2i32).unwrap();
    let outbound = vm.get_outbound();
    assert_eq!(outbound.at(&make_path(&["neighboring:0"])), Some(&json_i32(1)));
    assert_eq!(outbound.at(&make_path(&["neighboring:1"])), Some(&json_i32(2)));
}

#[test]
fn neighboring_reports_undecodable_neighbour_bytes() {
    let path = make_path(&["neighboring:0"]);
    let device_1 = ValueTree::new(vec![(path, b"not a number".to_vec())]);
    let inbound = InboundMessage::new(vec![(1u32, device_1)]);
    let mut vm: VM<u32, JsonSerializer> = VM::new(0u32, JsonSerializer);
    vm.prepare_new_round(inbound);
    let err = vm.neighboring(3i32).unwrap_err();
    assert!(matches!(err, AggregateError::DeserializationError(_)));
    // The failed primitive leaves the round usable: the next sibling gets
    // its own counter.
    let field = vm.neighboring(5u32).unwrap();
    assert_eq!(field.local(), &5u32);
    assert!(vm.get_outbound().at(&make_path(&["neighboring:1"])).is_some());
}

#[test]
fn branch_should_project_field_on_aligned_devices() {
    let path_even = make_path(&["branch[true]:0", "neighboring:0"]);
    let path_odd = make_path(&["branch[false]:0", "neighboring:0"]);
    let device_1 = ValueTree::new(vec![(path_odd, json_u32(1))]);
    let device_2 = ValueTree::new(vec![(path_even, json_u32(2))]);
    let inbound = InboundMessage::new(vec![(1u32, device_1), (2u32, device_2)]);
    let mut vm: VM<u32, JsonSerializer> = VM::new(0u32, JsonSerializer);
    vm.prepare_new_round(inbound);
    let condition = vm.local_id % 2 == 0;
    vm.branch_enter(condition);
    let field = if condition {
        vm.neighboring(u32::MAX).unwrap()
    } else {
        vm.neighboring(u32::MIN).unwrap()
    };
    vm.branch_exit();
    let expected_field = Field::new(u32::MAX, vec![(2u32, 2u32)]);
    assert_eq!(field, expected_field);
}

#[test]
fn share_should_use_initial_value_when_no_previous_state() {
    let mut vm: VM<u32, JsonSerializer> = VM::new(1u32, JsonSerializer);
    let initial_value = 42;
    let result = vm.share(initial_value, |field| *field.local() * 2).unwrap();
    assert_eq!(result, initial_value * 2);
    let sent = vm.get_outbound().at(&make_path(&["share:0"])).unwrap();
    let deserialized_sent_value: i32 = serde_json::from_slice(sent).unwrap();
    assert_eq!(deserialized_sent_value, initial_value * 2);
}

#[test]
fn share_should_use_last_state_and_neighbors() {
    fn program(vm: &mut VM<u32, JsonSerializer>) -> Result<i32, AggregateError> {
        let initial_value = 1i32;
        vm.share(initial_value, |field| {
            let size: i32 = field.size().try_into().unwrap();
            field.local() + size
        })
    }
    let path = make_path(&["share:0"]);
    let device_1 = ValueTree::new(vec![(path.clone(), json_i32(10))]);
    let device_2 = ValueTree::new(vec![(path, json_i32(20))]);
    let inbound = InboundMessage::new(vec![(1u32, device_1), (2u32, device_2)]);
    let mut vm: VM<u32, JsonSerializer> = VM::new(0u32, JsonSerializer);
    vm.prepare_new_round(inbound);
    let result = program(&mut vm).unwrap();
    assert_eq!(result, 4);
    // Reset neighbors, but the state should persist
    vm.prepare_new_round(InboundMessage::new(vec![]));
    let next_result = program(&mut vm).unwrap();
    assert_eq!(next_result, 5);
}

#[test]
fn share_reports_type_mismatch() {
    let mut vm: VM<u32, JsonSerializer> = VM::new(1u32, JsonSerializer);
    let _ = vm.share(1i32, |field| *field.local()).unwrap();
    vm.prepare_new_round(InboundMessage::new(vec![]));
    let err = vm.share(1u32, |field| *field.local()).unwrap_err();
    match err {
        AggregateError::StateTypeMismatch(e) => {
            assert_eq!(e.path, make_path(&["share:0"]));
            assert_eq!(e.expected, StateTag::U32);
        },
        other => panic!("unexpected error: {:?}", other),
    }
}

#[test]
fn share_reports_undecodable_neighbour_bytes() {
    let path = make_path(&["share:0"]);
    let device_1 = ValueTree::new(vec![(path, b"garbage".to_vec())]);
    let inbound = InboundMessage::new(vec![(1u32, device_1)]);
    let mut vm: VM<u32, JsonSerializer> = VM::new(0u32, JsonSerializer);
    vm.prepare_new_round(inbound);
    let err = vm.share(1i32, |field| *field.local()).unwrap_err();
    assert!(matches!(err, AggregateError::DeserializationError(_)));
}

#[test]
fn aggregate_errors_describe_their_kind() {
    let ser = AggregateError::SerializationError(String::from("boom"));
    assert_eq!(ser.describe(), "serialization error: boom");
    let de = AggregateError::DeserializationError(String::from("bad bytes"));
    assert_eq!(de.describe(), "deserialization error: bad bytes");
}

#[test]
fn repeat_emits_nothing() {
    let mut vm: VM<u32, JsonSerializer> = VM::new(0u32, JsonSerializer);
    let results: Vec<i32> = (0..5).map(|_| {
        vm.prepare_new_round(InboundMessage::new(vec![]));
        vm.repeat(10i32, |prev| prev + 1).unwrap()
    }).collect();
    assert_eq!(results, vec![11, 12, 13, 14, 15]);
    assert!(vm.get_outbound().at(&make_path(&["repeat:0"])).is_none());
}

#[test]
fn alignment_is_data_independent() {
    // Two rounds with the same control flow but different values emit
    // values at exactly the same paths.
    fn run_round(local: u32, a: i32, b: i32) -> Vec<Option<Vec<u8>>> {
        let mut vm: VM<u32, JsonSerializer> = VM::new(local, JsonSerializer);
        vm.neighboring(a).unwrap();
        vm.branch_enter(true);
        vm.share(b, |field| *field.local()).unwrap();
        vm.branch_exit();
        let outbound = vm.get_outbound();
        vec![
            outbound.at(&make_path(&["neighboring:0"])).cloned(),
            outbound.at(&make_path(&["branch[true]:1", "share:0"])).cloned(),
            outbound.at(&make_path(&["branch[false]:1", "share:0"])).cloned(),
        ]
    }
    let first = run_round(0, 1, 2);
    let second = run_round(9, 100, -5);
    assert!(first[0].is_some() && second[0].is_some());
    assert!(first[1].is_some() && second[1].is_some());
    assert!(first[2].is_none() && second[2].is_none());
}

#[test]
fn balanced_stack_keeps_later_primitives_at_top_level() {
    // After complete invocations the stack is back at depth zero: the next
    // primitive sits at the top level, under the next sibling counter.
    let mut vm: VM<u32, JsonSerializer> = VM::new(0u32, JsonSerializer);
    vm.share(1i32, |field| *field.local()).unwrap();
    vm.branch_enter(false);
    vm.neighboring(2i32).unwrap();
    vm.branch_exit();
    vm.neighboring(3i32).unwrap();
    let outbound = vm.get_outbound();
    assert_eq!(outbound.at(&make_path(&["share:0"])), Some(&json_i32(1)));
    assert_eq!(
        outbound.at(&make_path(&["branch[false]:1", "neighboring:0"])),
        Some(&json_i32(2))
    );
    assert_eq!(outbound.at(&make_path(&["neighboring:2"])), Some(&json_i32(3)));
}

#[test]
fn branch_inside_share_forms_nested_paths() {
    let mut vm: VM<u32, JsonSerializer> = VM::new(0u32, JsonSerializer);
    vm.branch_enter(true);
    let result = vm.share(7i32, |field| *field.local()).unwrap();
    vm.branch_exit();
    assert_eq!(result, 7);
    let sent = vm.get_outbound().at(&make_path(&["branch[true]:0", "share:0"]));
    assert_eq!(sent, Some(&json_i32(7)));
}
