use data_structure::linear::list_node::ListNode;
use data_structure::Error;

#[test]
fn test_sentinel_head() {
    let mut head: Box<ListNode<i32>> = Box::new(ListNode::new());
    for i in 1..6 {
        head.push(i);
    }
    assert!(head.data.is_none());
    assert_eq!(head.next.unwrap().data, Some(1))
}

#[test]
fn test_get_mut() {
    let mut head: Box<ListNode<i32>> = Box::new(ListNode::new());
    for i in 1..6 {
        head.push(i);
    }
    let value = head.get_mut(1).unwrap();
    assert_eq!(value.data, Some(1));
    let value2 = head.get_mut(2).unwrap();
    assert_eq!(value2.data, Some(2));
    let zero = head.get(0).unwrap();
    assert!(zero.data.is_none());
}

#[test]
fn test_length() {
    let mut list: Box<ListNode<i32>> = Box::new(ListNode::new());
    list.push(1);
    list.push(2);
    list.push(3);
    list.push(4);
    assert_eq!(list.length(), 4);
}

#[test]
fn pushes_count_and_pop_tail_on_empty_is_noop() {
    let mut list: ListNode<i32> = ListNode::new();
    assert_eq!(list.length(), 0);
    list.pop_tail();
    assert_eq!(list.length(), 0);
    for i in 0..7 {
        list.push(i);
    }
    assert_eq!(list.length(), 7);
    list.pop_tail();
    assert_eq!(list.length(), 6);
    assert_eq!(list.get(6).unwrap().data, Some(5));
    assert!(list.get(7).is_none());
}

#[test]
fn insert_then_remove_restores_chain() {
    for index in 1..5usize {
        let mut list: ListNode<i32> = ListNode::new();
        list.push(1);
        list.push(2);
        list.push(3);
        list.insert(index, 99).unwrap();
        assert_eq!(list.get(index).unwrap().data, Some(99));
        list.remove(index).unwrap();
        assert_eq!(list.length(), 3);
        assert_eq!(list.get(1).unwrap().data, Some(1));
        assert_eq!(list.get(2).unwrap().data, Some(2));
        assert_eq!(list.get(3).unwrap().data, Some(3));
    }
}

#[test]
fn insert_and_remove_out_of_bounds() {
    let mut list: ListNode<i32> = ListNode::new();
    list.push(1);
    assert_eq!(list.insert(0, 9), Err(Error::OutOfBounds));
    assert_eq!(list.insert(3, 9), Err(Error::OutOfBounds));
    assert_eq!(list.remove(0), Err(Error::OutOfBounds));
    assert_eq!(list.remove(2), Err(Error::OutOfBounds));
    assert_eq!(list.length(), 1);
    assert_eq!(list.get(1).unwrap().data, Some(1));
}

#[test]
fn get_mut_rewrites_a_node() {
    let mut list: ListNode<i32> = ListNode::new();
    list.push(41);
    *list.get_mut(1).unwrap().data.as_mut().unwrap() = 42;
    assert_eq!(list.get(1).unwrap().data, Some(42));
}
