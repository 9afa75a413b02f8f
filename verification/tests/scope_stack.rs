use foundations_telemetry::scope_stack::ScopeStack;

#[test]
fn empty_stack_has_no_current_item() {
    let stack: ScopeStack<u32> = ScopeStack::new();
    assert_eq!(stack.current(), None);
}

#[test]
fn innermost_scope_is_current() {
    let mut stack = ScopeStack::new();
    stack.enter("outer".to_string());
    assert_eq!(stack.current().map(String::as_str), Some("outer"));
    stack.enter("inner".to_string());
    assert_eq!(stack.current().map(String::as_str), Some("inner"));
}

#[test]
fn leaving_a_scope_restores_the_previous_item() {
    let mut stack = ScopeStack::new();
    stack.enter(1u32);
    stack.enter(2u32);
    assert_eq!(stack.leave(), Some(2));
    assert_eq!(stack.current(), Some(&1));
    assert_eq!(stack.leave(), Some(1));
    assert_eq!(stack.current(), None);
    assert_eq!(stack.leave(), None);
    assert_eq!(stack.current(), None);
}
