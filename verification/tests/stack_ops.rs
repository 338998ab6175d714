use data_structure::linear::stack::SequentialStack;
use data_structure::Error;

#[test]
fn stack() {
    let mut stack = SequentialStack::<i32>::new(10);
    for i in 0..10 {
        let item = 10 + i;
        stack.push(item).unwrap();
    }
    assert_eq!(stack.top, 10);
    assert_eq!(stack.top, stack.data.len());
    let item = stack.pop().unwrap();
    assert_eq!(item, 19);
    assert_eq!(stack.top, 9);
    assert_eq!(stack.top, stack.data.len());
    assert_eq!(*stack.get_top().unwrap(), 18);
    let item = stack.get_top_mut().unwrap();
    *item += 100;
    assert_eq!(*item, 118);
}

#[test]
fn scenario_capacity_two() {
    let mut stack = SequentialStack::<i32>::new(2);
    stack.push(10).unwrap();
    stack.push(20).unwrap();
    assert_eq!(stack.push(30), Err(Error::Full));
    assert_eq!(stack.pop(), Ok(20));
    assert_eq!(stack.pop(), Ok(10));
    assert_eq!(stack.pop(), Err(Error::Empty));
}

#[test]
fn full_round_trip_is_lifo() {
    let capacity: usize = 8;
    let mut stack = SequentialStack::<usize>::new(capacity);
    assert!(stack.is_empty());
    for i in 0..capacity {
        stack.push(i).unwrap();
    }
    assert!(stack.is_full());
    assert_eq!(stack.push(99), Err(Error::Full));
    for i in 0..capacity {
        assert_eq!(stack.pop(), Ok(capacity - 1 - i));
    }
    assert!(stack.is_empty());
    assert_eq!(stack.pop(), Err(Error::Empty));
}

#[test]
fn get_top_on_empty_is_none() {
    let mut stack = SequentialStack::<i32>::new(3);
    assert!(stack.get_top().is_none());
    assert!(stack.get_top_mut().is_none());
    stack.push(7).unwrap();
    assert_eq!(*stack.get_top().unwrap(), 7);
    assert_eq!(stack.top, 1);
}

#[test]
fn zero_capacity_stack_is_always_full() {
    let mut stack = SequentialStack::<i32>::new(0);
    assert!(stack.is_full());
    assert!(stack.is_empty());
    assert_eq!(stack.push(1), Err(Error::Full));
    assert_eq!(stack.pop(), Err(Error::Empty));
}
