use spl::stack::Stack;

#[test]
fn test_push_and_pop() {
    let mut stack: Stack<u32> = Stack::new();
    stack.push(2);
    stack.push(3);
    stack.push(5);

    assert_eq!(stack.pop().unwrap(), 5);
    assert_eq!(stack.pop().unwrap(), 3);
    assert_eq!(stack.pop().unwrap(), 2);

    // Pop from empty stack
    assert!(stack.pop().is_none());
}

#[test]
fn stack_test_peek() {
    let mut stack: Stack<u32> = Stack::new();
    stack.push(2);
    stack.push(3);

    // Peeking should not remove the item
    assert_eq!(*stack.peek().unwrap(), 3);
    assert_eq!(stack.pop().unwrap(), 3);

    assert_eq!(*stack.peek().unwrap(), 2);
    assert_eq!(stack.pop().unwrap(), 2);

    // Peek onto empty stack
    assert!(stack.peek().is_none());
}

#[test]
fn test_size_and_is_empty() {
    let mut stack: Stack<u32> = Stack::new();
    assert_eq!(stack.size(), 0);
    assert!(stack.is_empty());

    stack.push(2);
    stack.push(3);
    assert_eq!(stack.size(), 2);
    assert!(!stack.is_empty());

    stack.pop();
    stack.pop();

    assert_eq!(stack.size(), 0);
    assert!(stack.is_empty());
}
