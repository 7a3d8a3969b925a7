use rusty_2048::bounded_stack::BoundedStack;

#[test]
fn test_push() {
    let mut stack = BoundedStack::new(3);

    stack.push(0);
    assert_eq!(stack.items(), &vec![0]);

    stack.push(1);
    assert_eq!(stack.items(), &vec![0, 1]);

    stack.push(2);
    assert_eq!(stack.items(), &vec![0, 1, 2]);

    stack.push(3);
    assert_eq!(stack.items(), &vec![1, 2, 3]);

    stack.push(4);
    assert_eq!(stack.items(), &vec![2, 3, 4]);
}

#[test]
fn test_pop() {
    let mut stack = BoundedStack::new(3);

    for i in 0..5 {
        stack.push(i);
    }
    assert_eq!(stack.items(), &vec![2, 3, 4]);

    assert_eq!(stack.pop(), Some(4));
    assert_eq!(stack.pop(), Some(3));
    assert_eq!(stack.pop(), Some(2));
    assert_eq!(stack.pop(), None);
    assert_eq!(stack.pop(), None);
}

#[test]
fn test_clear() {
    let mut stack = BoundedStack::new(3);

    for i in 0..5 {
        stack.push(i);
    }
    assert_eq!(stack.items(), &vec![2, 3, 4]);

    stack.clear();
    assert_eq!(stack.items(), &Vec::<i32>::new());
}

#[test]
fn pop_after_push_gives_back_the_item() {
    let mut stack = BoundedStack::new(2);
    stack.push('a');
    stack.push('b');
    stack.push('c');
    assert_eq!(stack.pop(), Some('c'));
    assert_eq!(stack.items(), &vec!['b']);
}
