use data_structure::linear::array::ArrayList;
use data_structure::Error;

#[test]
fn test1() {
    let mut arr: ArrayList<char> = ArrayList::new();
    arr.insert(1, 'a').expect("TODO: panic message");
    arr.insert(2, 'b').expect("TODO: panic message");
    arr.insert(3, 'c').expect("TODO: panic message");
}

#[test]
fn insert_then_get_returns_value_at_each_position() {
    let mut arr: ArrayList<i32> = ArrayList::new();
    arr.insert(1, 10).unwrap();
    arr.insert(2, 30).unwrap();
    // every valid position 1..=length+1
    for pos in 1..4usize {
        let mut copy: ArrayList<i32> = ArrayList::new();
        copy.insert(1, 10).unwrap();
        copy.insert(2, 30).unwrap();
        let before = copy.length();
        copy.insert(pos, 77).unwrap();
        assert_eq!(copy.get_element(pos), Ok(77));
        assert_eq!(copy.length(), before + 1);
    }
}

#[test]
fn delete_shifts_left_and_shrinks() {
    let mut arr: ArrayList<i32> = ArrayList::new();
    arr.insert(1, 1).unwrap();
    arr.insert(2, 2).unwrap();
    arr.insert(3, 3).unwrap();
    arr.delete(2).unwrap();
    assert_eq!(arr.length(), 2);
    assert_eq!(arr.get_element(2), Ok(3));
    assert_eq!(arr.get_element(1), Ok(1));
}

#[test]
fn locate_index_finds_first_match() {
    let mut arr: ArrayList<i32> = ArrayList::new();
    arr.insert(1, 5).unwrap();
    arr.insert(2, 7).unwrap();
    arr.insert(3, 7).unwrap();
    assert_eq!(arr.locate_index(7), Ok(2));
    assert_eq!(arr.locate_index(5), Ok(1));
    assert_eq!(arr.locate_index(9), Err(Error::NotFound));
}

#[test]
fn scenario_three_chars() {
    let mut arr: ArrayList<char> = ArrayList::new();
    arr.insert(1, 'a').unwrap();
    arr.insert(2, 'b').unwrap();
    arr.insert(3, 'c').unwrap();
    assert_eq!(arr.get_element(2), Ok('b'));
    assert_eq!(arr.locate_index('c'), Ok(3));
    assert_eq!(arr.length(), 3);
}

#[test]
fn adjacency_queries_are_inverse_on_distinct_values() {
    let mut arr: ArrayList<i32> = ArrayList::new();
    arr.insert(1, 10).unwrap();
    arr.insert(2, 20).unwrap();
    arr.insert(3, 30).unwrap();
    assert_eq!(arr.next_element(10), Ok(20));
    assert_eq!(arr.prior_element(20), Ok(10));
    assert_eq!(arr.next_element(20), Ok(30));
    assert_eq!(arr.prior_element(30), Ok(20));
}

#[test]
fn adjacency_boundary_and_missing_errors() {
    let empty: ArrayList<i32> = ArrayList::new();
    assert_eq!(empty.prior_element(1), Err(Error::Empty));
    assert_eq!(empty.next_element(1), Err(Error::Empty));
    let mut arr: ArrayList<i32> = ArrayList::new();
    arr.insert(1, 10).unwrap();
    arr.insert(2, 20).unwrap();
    assert_eq!(arr.prior_element(10), Err(Error::NoPredecessor));
    assert_eq!(arr.next_element(20), Err(Error::NoSuccessor));
    assert_eq!(arr.prior_element(99), Err(Error::NotFound));
    assert_eq!(arr.next_element(99), Err(Error::NotFound));
}

#[test]
fn out_of_bounds_and_full_errors() {
    let mut arr: ArrayList<i32> = ArrayList::new();
    assert_eq!(arr.get_element(0), Err(Error::OutOfBounds));
    assert_eq!(arr.get_element(1), Err(Error::OutOfBounds));
    assert_eq!(arr.insert(0, 1), Err(Error::OutOfBounds));
    assert_eq!(arr.insert(2, 1), Err(Error::OutOfBounds));
    assert_eq!(arr.delete(0), Err(Error::OutOfBounds));
    assert_eq!(arr.delete(1), Err(Error::OutOfBounds));
    for i in 0..100usize {
        arr.insert(i + 1, i as i32).unwrap();
    }
    assert_eq!(arr.length(), 100);
    // a valid position on a full list reports Full; an invalid position is
    // reported as OutOfBounds before fullness is consulted
    assert_eq!(arr.insert(50, 0), Err(Error::Full));
    assert_eq!(arr.insert(102, 0), Err(Error::OutOfBounds));
}

#[test]
fn clear_and_empty_polarity() {
    let mut arr: ArrayList<i32> = ArrayList::new();
    assert!(arr.empty());
    arr.insert(1, 4).unwrap();
    assert!(!arr.empty());
    arr.clear();
    assert!(arr.empty());
    assert_eq!(arr.length(), 0);
    assert_eq!(arr.get_element(1), Err(Error::OutOfBounds));
}
