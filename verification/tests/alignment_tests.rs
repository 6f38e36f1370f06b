use rufi::alignment::AlignmentStack;
use rufi::path::InvocationCoordinate;

#[test]
fn invocation_coordinate_display() {
    let invocation_coordinate = InvocationCoordinate::new(1, "test");
    assert_eq!(invocation_coordinate.render(), "test:1");
}

#[test]
fn alignment_stack_simple() {
    let mut stack = AlignmentStack::new();
    stack.align("test");
    assert_eq!(stack.current_path().len(), 1);
    let expected = InvocationCoordinate::new(0, "test");
    assert_eq!(stack.current_path().first(), Some(&expected));
    stack.unalign();
    assert_eq!(stack.current_path().len(), 0);
}

#[test]
fn alignment_stack_nested() {
    let mut stack = AlignmentStack::new();
    stack.align("outer");
    stack.align("inner");
    assert_eq!(stack.current_path().len(), 2);
    let expected_outer = InvocationCoordinate::new(0, "outer");
    let expected_inner = InvocationCoordinate::new(0, "inner");
    assert_eq!(stack.current_path().first(), Some(&expected_outer));
    assert_eq!(stack.current_path().get(1), Some(&expected_inner));
    stack.unalign();
    assert_eq!(stack.current_path().len(), 1);
    assert_eq!(stack.current_path().first(), Some(&expected_outer));
}

#[test]
fn alignment_stack_same_token() {
    let mut stack = AlignmentStack::new();
    stack.align("test");
    let expected = InvocationCoordinate::new(0, "test");
    assert_eq!(stack.current_path().first(), Some(&expected));
    stack.unalign();
    stack.align("test");
    let expected_1 = InvocationCoordinate::new(1, "test");
    assert_eq!(stack.current_path().first(), Some(&expected_1));
    stack.unalign();
}

#[test]
fn alignment_stack_invocation_coordinate_display() {
    let invocation_coordinate = InvocationCoordinate::new(1, "test");
    assert_eq!(invocation_coordinate.render(), "test:1");
}

#[test]
fn alignment_stack_alignment_stack_simple() {
    let mut stack = AlignmentStack::new();
    stack.align("test");
    assert_eq!(stack.current_path().len(), 1);
    assert_eq!(stack.current_path()[0].token, "test");
    stack.unalign();
    assert_eq!(stack.current_path().len(), 0);
}

#[test]
fn alignment_stack_alignment_stack_nested() {
    let mut stack = AlignmentStack::new();
    stack.align("outer");
    stack.align("inner");
    assert_eq!(stack.current_path().len(), 2);
    assert_eq!(stack.current_path()[0].token, "outer");
    assert_eq!(stack.current_path()[1].token, "inner");
    stack.unalign();
    assert_eq!(stack.current_path().len(), 1);
    assert_eq!(stack.current_path()[0].token, "outer");
}

#[test]
fn alignment_stack_alignment_stack_same_token() {
    let mut stack = AlignmentStack::new();
    stack.align("test");
    assert_eq!(stack.current_path()[0].token, "test");
    assert_eq!(stack.current_path()[0].counter, 0);
    stack.unalign();
    stack.align("test");
    assert_eq!(stack.current_path()[0].token, "test");
    assert_eq!(stack.current_path()[0].counter, 1);
    stack.unalign();
}
