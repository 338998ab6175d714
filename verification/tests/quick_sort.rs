use data_structure::sorting::quick;

#[test]
fn test_quick() {
    let mut array = vec![5, 4, 3, 2, 1];
    let len = array.len();
    quick(&mut array, 0, len - 1);
    assert_eq!(array, vec![1, 2, 3, 4, 5]);
}

#[test]
fn sorting_a_sorted_array_changes_nothing() {
    let mut array = vec![1, 2, 3, 4, 5];
    quick(&mut array, 0, 4);
    assert_eq!(array, vec![1, 2, 3, 4, 5]);
}

#[test]
fn duplicates_are_kept() {
    let mut array = vec![3, 1, 3, 2, 1, 3];
    let len = array.len();
    quick(&mut array, 0, len - 1);
    assert_eq!(array, vec![1, 1, 2, 3, 3, 3]);
}

#[test]
fn single_element_and_equal_bounds() {
    let mut array = vec![42];
    quick(&mut array, 0, 0);
    assert_eq!(array, vec![42]);
}

#[test]
fn empty_range_is_untouched() {
    let mut array: Vec<i32> = vec![];
    quick(&mut array, 0, 0);
    assert_eq!(array, Vec::<i32>::new());
}

#[test]
fn sorts_only_the_given_range() {
    let mut array = vec![9, 5, 4, 3, 8];
    quick(&mut array, 1, 3);
    assert_eq!(array, vec![9, 3, 4, 5, 8]);
}

#[test]
fn negative_values_sort_ascending() {
    let mut array = vec![0, -3, 7, -3, 2];
    let len = array.len();
    quick(&mut array, 0, len - 1);
    assert_eq!(array, vec![-3, -3, 0, 2, 7]);
}
