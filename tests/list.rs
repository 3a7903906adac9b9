use array_list::ArrayList;

/// The elements of `list`, front to back.
fn contents<T: Copy, const N: usize>(list: &ArrayList<T, N>) -> Vec<T> {
    let mut out = Vec::new();
    let mut it = list.iter();
    while let Some(x) = it.next() {
        out.push(*x);
    }
    out
}

#[test]
fn test_new_creates_empty_array_list() {
    let sut: ArrayList<i64, 2> = ArrayList::new();
    assert!(sut.is_empty());
    assert_eq!(sut.len(), 0);
}

#[test]
fn test_default_creates_empty_array_list() {
    let sut: ArrayList<i64, 2> = ArrayList::default();
    assert!(sut.is_empty());
    assert_eq!(sut.len(), 0);
}

#[test]
fn test_push_front_adds_element_to_front() {
    let mut sut: ArrayList<i64, 2> = ArrayList::new();
    assert_eq!(sut.len(), 0);
    assert!(sut.is_empty());

    sut.push_front(10);
    assert_eq!(sut.len(), 1);
    assert!(!sut.is_empty());

    assert_eq!(sut.pop_front(), Some(10));
    assert_eq!(sut.len(), 0);
    assert!(sut.is_empty());

    sut.push_front(40);
    sut.push_front(30);
    sut.push_front(20);
    sut.push_front(10);
    assert_eq!(sut.len(), 4);
    assert!(!sut.is_empty());

    assert_eq!(sut.pop_front(), Some(10));
    assert_eq!(sut.pop_front(), Some(20));
    assert_eq!(sut.pop_front(), Some(30));
    assert_eq!(sut.pop_front(), Some(40));
    assert_eq!(sut.len(), 0);
    assert!(sut.is_empty());
}

#[test]
fn test_push_back_adds_element_to_back() {
    let mut sut: ArrayList<i64, 2> = ArrayList::new();
    assert_eq!(sut.len(), 0);
    assert!(sut.is_empty());

    sut.push_back(10);
    assert_eq!(sut.len(), 1);
    assert!(!sut.is_empty());

    assert_eq!(sut.pop_back(), Some(10));
    assert_eq!(sut.len(), 0);
    assert!(sut.is_empty());

    sut.push_back(10);
    sut.push_back(20);
    sut.push_back(30);
    sut.push_back(40);
    assert_eq!(sut.len(), 4);
    assert!(!sut.is_empty());

    assert_eq!(sut.pop_back(), Some(40));
    assert_eq!(sut.pop_back(), Some(30));
    assert_eq!(sut.pop_back(), Some(20));
    assert_eq!(sut.pop_back(), Some(10));
    assert_eq!(sut.len(), 0);
    assert!(sut.is_empty());
}

#[test]
fn test_pop_front_removes_and_returns_the_first_element() {
    let mut sut: ArrayList<i64, 2> = ArrayList::new();
    sut.push_front(30);
    sut.push_front(20);
    sut.push_front(10);
    assert_eq!(sut.len(), 3);

    assert_eq!(sut.pop_front(), Some(10));
    assert_eq!(sut.len(), 2);
    assert_eq!(sut.pop_front(), Some(20));
    assert_eq!(sut.len(), 1);
    assert_eq!(sut.pop_front(), Some(30));
    assert_eq!(sut.len(), 0);

    assert!(sut.is_empty());
    assert_eq!(sut.pop_front(), None);
}

#[test]
fn test_pop_back_removes_and_returns_the_last_element() {
    let mut sut: ArrayList<i64, 2> = ArrayList::new();
    sut.push_back(10);
    sut.push_back(20);
    sut.push_back(30);
    assert_eq!(sut.len(), 3);

    assert_eq!(sut.pop_back(), Some(30));
    assert_eq!(sut.len(), 2);
    assert_eq!(sut.pop_back(), Some(20));
    assert_eq!(sut.len(), 1);
    assert_eq!(sut.pop_back(), Some(10));
    assert_eq!(sut.len(), 0);

    assert!(sut.is_empty());
    assert_eq!(sut.pop_back(), None);
}

#[test]
fn test_remove_removes_element_at_index() {
    let mut sut: ArrayList<i64, 3> = ArrayList::new();

    // Fill the list with elements
    sut.push_back(10);
    sut.push_back(20);
    sut.push_back(30);
    sut.push_back(40);
    sut.push_back(50);
    sut.push_back(60);
    assert_eq!(sut.len(), 6);

    // Test removal of elements at various indices
    assert_eq!(sut.remove(0).unwrap(), 10); // Removes 10, shifts 20 to index 0
    assert_eq!(sut.get(0), Some(&20));
    assert_eq!(sut.len(), 5);

    assert_eq!(sut.remove(2).unwrap(), 40); // Removes 40, shifts 50 to index 2
    assert_eq!(sut.get(2), Some(&50));
    assert_eq!(sut.len(), 4);

    assert_eq!(sut.remove(3).unwrap(), 60); // Removes 60, second chunk becomes empty
    assert_eq!(sut.get(3), None); // No more elements at index 3
    assert_eq!(sut.len(), 3);

    // Test removal of remaining elements
    assert_eq!(sut.remove(1).unwrap(), 30); // Removes 30
    assert_eq!(sut.get(1), Some(&50));
    assert_eq!(sut.len(), 2);

    assert_eq!(sut.remove(1).unwrap(), 50); // Removes 50
    assert_eq!(sut.get(1), None);
    assert_eq!(sut.len(), 1);

    assert_eq!(sut.remove(0).unwrap(), 20); // Removes 20, list becomes empty
    assert_eq!(sut.get(0), None);
    assert_eq!(sut.len(), 0);

    assert_eq!(sut.remove(0), None);
}

#[test]
fn test_remove_element_in_middle_chunk() {
    let mut sut: ArrayList<i64, 3> = ArrayList::new();
    assert!(sut.is_empty());
    assert_eq!(sut.len(), 0);

    sut.push_back(0);
    sut.push_back(1);
    sut.push_back(2);
    sut.push_back(3);
    sut.push_back(4);
    sut.push_back(5);
    sut.push_back(6);
    sut.push_back(7);
    sut.push_back(8);
    assert!(!sut.is_empty());
    assert_eq!(sut.len(), 9);
    assert_eq!(sut.get(0), Some(&0));
    assert_eq!(sut.get(1), Some(&1));
    assert_eq!(sut.get(2), Some(&2));
    assert_eq!(sut.get(3), Some(&3));
    assert_eq!(sut.get(4), Some(&4));
    assert_eq!(sut.get(5), Some(&5));
    assert_eq!(sut.get(6), Some(&6));
    assert_eq!(sut.get(7), Some(&7));
    assert_eq!(sut.get(8), Some(&8));

    assert_eq!(sut.remove(5).unwrap(), 5);
    assert!(!sut.is_empty());
    assert_eq!(sut.len(), 8);
    assert_eq!(sut.get(0), Some(&0));
    assert_eq!(sut.get(1), Some(&1));
    assert_eq!(sut.get(2), Some(&2));
    assert_eq!(sut.get(3), Some(&3));
    assert_eq!(sut.get(4), Some(&4));
    assert_eq!(sut.get(5), Some(&6));
    assert_eq!(sut.get(6), Some(&7));
    assert_eq!(sut.get(7), Some(&8));

    assert_eq!(sut.remove(4).unwrap(), 4);
    assert!(!sut.is_empty());
    assert_eq!(sut.len(), 7);
    assert_eq!(sut.get(0), Some(&0));
    assert_eq!(sut.get(1), Some(&1));
    assert_eq!(sut.get(2), Some(&2));
    assert_eq!(sut.get(3), Some(&3));
    assert_eq!(sut.get(4), Some(&6));
    assert_eq!(sut.get(5), Some(&7));
    assert_eq!(sut.get(6), Some(&8));

    assert_eq!(sut.remove(3).unwrap(), 3);
    assert!(!sut.is_empty());
    assert_eq!(sut.len(), 6);
    assert_eq!(sut.get(0), Some(&0));
    assert_eq!(sut.get(1), Some(&1));
    assert_eq!(sut.get(2), Some(&2));
    assert_eq!(sut.get(3), Some(&6));
    assert_eq!(sut.get(4), Some(&7));
    assert_eq!(sut.get(5), Some(&8));
}

#[test]
fn test_clear_resets_the_list() {
    let mut sut: ArrayList<i32, 2> = ArrayList::new();

    sut.push_back(10);
    sut.push_back(20);
    sut.push_back(30);
    assert!(!sut.is_empty());
    assert_eq!(sut.len(), 3);

    sut.clear();

    assert!(sut.is_empty());
    assert_eq!(sut.len(), 0);

    assert_eq!(sut.front(), None);
    assert_eq!(sut.back(), None);

    // Verify the list is still functional after clearing
    sut.push_back(40);
    assert!(!sut.is_empty());
    assert_eq!(sut.len(), 1);
    assert_eq!(sut.front(), Some(&40));
    assert_eq!(sut.back(), Some(&40));
}

#[test]
fn test_front_returns_the_first_element() {
    let mut sut: ArrayList<i64, 2> = ArrayList::new();
    assert_eq!(sut.front(), None);

    sut.push_back(10);
    assert_eq!(sut.front(), Some(&10));

    sut.push_back(20);
    assert_eq!(sut.front(), Some(&10));

    assert_eq!(sut.pop_front(), Some(10));
    assert_eq!(sut.front(), Some(&20));

    sut.push_front(10);
    assert_eq!(sut.front(), Some(&10));

    assert_eq!(sut.pop_back(), Some(20));
    assert_eq!(sut.front(), Some(&10));

    assert_eq!(sut.pop_front(), Some(10));
    assert_eq!(sut.front(), None);
}

#[test]
fn test_front_mut_returns_the_first_element() {
    let mut sut: ArrayList<i64, 2> = ArrayList::new();
    assert_eq!(sut.front_mut(), None);

    sut.push_back(10);
    assert_eq!(sut.front_mut(), Some(&mut 10));

    sut.push_back(20);
    assert_eq!(sut.front_mut(), Some(&mut 10));

    assert_eq!(sut.pop_front(), Some(10));
    assert_eq!(sut.front_mut(), Some(&mut 20));

    sut.push_front(10);
    assert_eq!(sut.front_mut(), Some(&mut 10));

    assert_eq!(sut.pop_back(), Some(20));
    assert_eq!(sut.front_mut(), Some(&mut 10));

    assert_eq!(sut.pop_front(), Some(10));
    assert_eq!(sut.front_mut(), None);
}

#[test]
fn test_back_returns_the_last_element() {
    let mut sut: ArrayList<i64, 2> = ArrayList::new();
    assert_eq!(sut.back(), None);

    sut.push_front(10);
    assert_eq!(sut.back(), Some(&10));

    sut.push_front(20);
    assert_eq!(sut.back(), Some(&10));

    assert_eq!(sut.pop_front(), Some(20));
    assert_eq!(sut.back(), Some(&10));

    sut.push_front(20);
    assert_eq!(sut.back(), Some(&10));

    assert_eq!(sut.pop_back(), Some(10));
    assert_eq!(sut.back(), Some(&20));

    assert_eq!(sut.pop_front(), Some(20));
    assert_eq!(sut.back(), None);
}

#[test]
fn test_back_mut_returns_the_last_element() {
    let mut sut: ArrayList<i64, 2> = ArrayList::new();
    assert_eq!(sut.back_mut(), None);

    sut.push_front(10);
    assert_eq!(sut.back_mut(), Some(&mut 10));

    sut.push_front(20);
    assert_eq!(sut.back_mut(), Some(&mut 10));

    assert_eq!(sut.pop_front(), Some(20));
    assert_eq!(sut.back_mut(), Some(&mut 10));

    sut.push_front(20);
    assert_eq!(sut.back_mut(), Some(&mut 10));

    assert_eq!(sut.pop_back(), Some(10));
    assert_eq!(sut.back_mut(), Some(&mut 20));

    assert_eq!(sut.pop_front(), Some(20));
    assert_eq!(sut.back_mut(), None);
}

#[test]
fn test_get_retrieves_correct_element() {
    let mut sut: ArrayList<i64, 3> = ArrayList::new();
    assert!(sut.is_empty());

    assert_eq!(sut.get(0), None);
    assert_eq!(sut.get(5), None);

    // Ensure to allocate at leat 2 chunks
    sut.push_back(10);
    sut.push_back(20);
    sut.push_back(30);
    sut.push_back(40);
    sut.push_back(50);
    sut.push_back(60);

    assert_eq!(sut.get(0), Some(&10));
    assert_eq!(sut.get(1), Some(&20));
    assert_eq!(sut.get(2), Some(&30));
    assert_eq!(sut.get(3), Some(&40));
    assert_eq!(sut.get(4), Some(&50));
    assert_eq!(sut.get(5), Some(&60));

    // Out-of-bounds indices, should return None
    assert_eq!(sut.get(6), None);
    assert_eq!(sut.get(10), None);
}

#[test]
fn test_get_mut_retrieves_correct_element() {
    let mut sut: ArrayList<i64, 3> = ArrayList::new();
    assert!(sut.is_empty());

    assert_eq!(sut.get_mut(0), None);
    assert_eq!(sut.get_mut(5), None);

    // Ensure to allocate at leat 2 chunks
    sut.push_back(10);
    sut.push_back(20);
    sut.push_back(30);
    sut.push_back(40);
    sut.push_back(50);
    sut.push_back(60);

    assert_eq!(sut.get_mut(0), Some(&mut 10));
    assert_eq!(sut.get_mut(1), Some(&mut 20));
    assert_eq!(sut.get_mut(2), Some(&mut 30));
    assert_eq!(sut.get_mut(3), Some(&mut 40));
    assert_eq!(sut.get_mut(4), Some(&mut 50));
    assert_eq!(sut.get_mut(5), Some(&mut 60));

    // Out-of-bounds indices, should return None
    assert_eq!(sut.get_mut(6), None);
    assert_eq!(sut.get_mut(10), None);
}

#[test]
fn test_len_returns_correct_length() {
    let mut sut: ArrayList<i64, 2> = ArrayList::new();
    assert_eq!(sut.len(), 0);
    assert!(sut.is_empty());

    sut.push_back(10);
    assert_eq!(sut.len(), 1);
    assert!(!sut.is_empty());

    sut.push_back(20);
    assert_eq!(sut.len(), 2);
    assert!(!sut.is_empty());

    sut.push_back(30);
    assert_eq!(sut.len(), 3);
    assert!(!sut.is_empty());
}

#[test]
fn test_list_remains_functional_after_multiple_operations() {
    let mut sut: ArrayList<i32, 4> = ArrayList::new();

    // Initial insertions
    sut.push_back(10);
    sut.push_back(20);
    sut.push_back(30);
    sut.push_back(40);
    sut.push_back(50);

    assert_eq!(sut.len(), 5);
    assert_eq!(sut.front(), Some(&10));
    assert_eq!(sut.back(), Some(&50));

    // Remove elements from the front
    assert_eq!(sut.pop_front(), Some(10));
    assert_eq!(sut.pop_front(), Some(20));
    assert_eq!(sut.len(), 3);
    assert_eq!(sut.front(), Some(&30));
    assert_eq!(sut.back(), Some(&50));

    // Insert elements at the front
    sut.push_front(5);
    sut.push_front(0);
    assert_eq!(sut.len(), 5);
    assert_eq!(sut.front(), Some(&0));
    assert_eq!(sut.back(), Some(&50));

    // Remove elements from the back
    assert_eq!(sut.pop_back(), Some(50));
    assert_eq!(sut.pop_back(), Some(40));
    assert_eq!(sut.len(), 3);
    assert_eq!(sut.front(), Some(&0));
    assert_eq!(sut.back(), Some(&30));

    // Insert in the middle
    sut.insert(1, 15);
    assert_eq!(sut.len(), 4);
    assert_eq!(sut.get(0), Some(&0));
    assert_eq!(sut.get(1), Some(&15));
    assert_eq!(sut.get(2), Some(&5));
    assert_eq!(sut.get(3), Some(&30));

    // Remove an element from the middle
    assert_eq!(sut.remove(2).unwrap(), 5);
    assert_eq!(sut.len(), 3);
    assert_eq!(sut.get(0), Some(&0));
    assert_eq!(sut.get(1), Some(&15));
    assert_eq!(sut.get(2), Some(&30));

    // Clear and verify reusability
    sut.clear();
    assert!(sut.is_empty());
    assert_eq!(sut.len(), 0);

    sut.push_back(100);
    sut.push_back(200);
    assert_eq!(sut.len(), 2);
    assert_eq!(sut.front(), Some(&100));
    assert_eq!(sut.back(), Some(&200));
}

#[test]
fn test_append_combines_two_lists() {
    // Create and populate the first list
    let mut sut: ArrayList<i32, 2> = ArrayList::new();
    sut.push_back(10);
    sut.push_back(20);
    sut.push_back(30);

    // Create and populate the second list
    let mut other: ArrayList<i32, 2> = ArrayList::new();
    other.push_back(40);
    other.push_back(50);
    other.push_back(60);

    // Append the second list into the first
    sut.append(&mut other);

    assert!(other.is_empty());
    assert_eq!(other.len(), 0);

    assert_eq!(sut.len(), 6);
    assert_eq!(sut.get(0), Some(&10));
    assert_eq!(sut.get(1), Some(&20));
    assert_eq!(sut.get(2), Some(&30));
    assert_eq!(sut.get(3), Some(&40));
    assert_eq!(sut.get(4), Some(&50));
    assert_eq!(sut.get(5), Some(&60));

    // ensure appending an empty list does nothing
    sut.append(&mut other);
    assert_eq!(sut.len(), 6);
    assert_eq!(sut.get(0), Some(&10));
    assert_eq!(sut.get(1), Some(&20));
    assert_eq!(sut.get(2), Some(&30));
    assert_eq!(sut.get(3), Some(&40));
    assert_eq!(sut.get(4), Some(&50));
    assert_eq!(sut.get(5), Some(&60));

    // ensure other remains functional
    other.push_back(100);
    other.push_back(200);
    assert_eq!(other.len(), 2);
    assert_eq!(other.front(), Some(&100));
    assert_eq!(other.back(), Some(&200));

    // ensure sut remains functional
    sut.push_back(70);
    assert_eq!(sut.len(), 7);
    assert_eq!(sut.get(0), Some(&10));
    assert_eq!(sut.get(1), Some(&20));
    assert_eq!(sut.get(2), Some(&30));
    assert_eq!(sut.get(3), Some(&40));
    assert_eq!(sut.get(4), Some(&50));
    assert_eq!(sut.get(5), Some(&60));
    assert_eq!(sut.get(6), Some(&70));
}

#[test]
fn test_append_an_empty_list_do_nothing() {
    // Create and populate the first list
    let mut sut: ArrayList<i32, 2> = ArrayList::new();
    sut.push_back(10);
    sut.push_back(20);
    sut.push_back(30);

    // Create and populate the second list
    let mut other: ArrayList<i32, 2> = ArrayList::new();

    // Append the second list into the first
    sut.append(&mut other);
    assert!(other.is_empty());
    assert_eq!(other.len(), 0);

    other.push_back(100);
    other.push_back(200);
    assert_eq!(other.len(), 2);
    assert_eq!(other.front(), Some(&100));
    assert_eq!(other.back(), Some(&200));

    // Verify the combined list
    assert_eq!(sut.len(), 3);
    assert_eq!(sut.get(0), Some(&10));
    assert_eq!(sut.get(1), Some(&20));
    assert_eq!(sut.get(2), Some(&30));

    // Verify the combined list is still functional
    sut.push_back(40);
    assert_eq!(sut.len(), 4);
    assert_eq!(sut.get(3), Some(&40));
}

#[test]
fn test_append_on_an_empty_list_adds_all_elements() {
    // Create and populate the first list
    let mut sut: ArrayList<i32, 2> = ArrayList::new();

    // Create and populate the second list
    let mut other: ArrayList<i32, 2> = ArrayList::new();
    other.push_back(10);
    other.push_back(20);
    other.push_back(30);

    // Append the second list into the first
    sut.append(&mut other);
    assert!(other.is_empty());
    assert_eq!(other.len(), 0);

    other.push_back(100);
    other.push_back(200);
    assert_eq!(other.len(), 2);
    assert_eq!(other.front(), Some(&100));
    assert_eq!(other.back(), Some(&200));

    // Verify the combined list
    assert_eq!(sut.len(), 3);
    assert_eq!(sut.get(0), Some(&10));
    assert_eq!(sut.get(1), Some(&20));
    assert_eq!(sut.get(2), Some(&30));

    // Verify the combined list is still functional
    sut.push_back(40);
    assert_eq!(sut.len(), 4);
    assert_eq!(sut.get(3), Some(&40));
}

#[test]
fn test_from_iter_works_correctly() {
    let sut: ArrayList<i32, 2> = ArrayList::from_iter((0..5).collect());
    assert!(!sut.is_empty());
    assert_eq!(sut.len(), 5);
    assert_eq!(sut.get(0), Some(&0));
    assert_eq!(sut.get(1), Some(&1));
    assert_eq!(sut.get(2), Some(&2));
    assert_eq!(sut.get(3), Some(&3));
    assert_eq!(sut.get(4), Some(&4));

    assert_eq!(sut.front(), Some(&0));
    assert_eq!(sut.back(), Some(&4));
}

#[test]
fn test_extend_works_correctly() {
    let mut sut: ArrayList<i32, 2> = ArrayList::new();
    sut.extend((0..5).collect());
    assert!(!sut.is_empty());
    assert_eq!(sut.len(), 5);
    assert_eq!(sut.get(0), Some(&0));
    assert_eq!(sut.get(1), Some(&1));
    assert_eq!(sut.get(2), Some(&2));
    assert_eq!(sut.get(3), Some(&3));
    assert_eq!(sut.get(4), Some(&4));

    assert_eq!(sut.front(), Some(&0));
    assert_eq!(sut.back(), Some(&4));
}

#[test]
fn test_extend_with_refs_works_correctly() {
    let mut sut: ArrayList<i32, 2> = ArrayList::new();
    sut.extend_from_slice(&[0, 1, 2, 3, 4]);
    assert!(!sut.is_empty());
    assert_eq!(sut.len(), 5);
    assert_eq!(sut.get(0), Some(&0));
    assert_eq!(sut.get(1), Some(&1));
    assert_eq!(sut.get(2), Some(&2));
    assert_eq!(sut.get(3), Some(&3));
    assert_eq!(sut.get(4), Some(&4));

    assert_eq!(sut.front(), Some(&0));
    assert_eq!(sut.back(), Some(&4));
}

#[test]
fn test_from_array_works_correctly() {
    let sut: ArrayList<i32, 2> = ArrayList::from_iter(vec![0, 1, 2, 3, 4]);
    assert!(!sut.is_empty());
    assert_eq!(sut.len(), 5);
    assert_eq!(sut.get(0), Some(&0));
    assert_eq!(sut.get(1), Some(&1));
    assert_eq!(sut.get(2), Some(&2));
    assert_eq!(sut.get(3), Some(&3));
    assert_eq!(sut.get(4), Some(&4));

    assert_eq!(sut.front(), Some(&0));
    assert_eq!(sut.back(), Some(&4));
}

#[test]
fn lib_test_clone_works_correctly() {
    let mut other: ArrayList<i32, 2> = ArrayList::from_iter(vec![0, 1, 2, 3, 4]);

    let sut = other.clone();
    assert!(!sut.is_empty());
    assert_eq!(sut.len(), 5);
    assert_eq!(sut.front(), Some(&0));
    assert_eq!(sut.back(), Some(&4));
    assert_eq!(sut.get(0), Some(&0));
    assert_eq!(sut.get(1), Some(&1));
    assert_eq!(sut.get(2), Some(&2));
    assert_eq!(sut.get(3), Some(&3));
    assert_eq!(sut.get(4), Some(&4));

    other.clear();
    let sut = other.clone();
    assert!(sut.is_empty());
    assert_eq!(sut.len(), 0);
    assert_eq!(sut.front(), None);
    assert_eq!(sut.back(), None);
    assert_eq!(sut.get(0), None);
}

#[test]
fn test_push_front() {
    let mut sut: ArrayList<_, 3> = ArrayList::new();

    sut.push_front(6);
    assert_eq!(contents(&sut), [6]);

    sut.push_front(5);
    assert_eq!(contents(&sut), [5, 6]);

    sut.push_front(4);
    assert_eq!(contents(&sut), [4, 5, 6]);

    sut.push_front(3);
    assert_eq!(contents(&sut), [3, 4, 5, 6]);

    sut.push_front(2);
    assert_eq!(contents(&sut), [2, 3, 4, 5, 6]);

    sut.push_front(1);
    assert_eq!(contents(&sut), [1, 2, 3, 4, 5, 6]);

    sut.push_front(0);
    assert_eq!(contents(&sut), [0, 1, 2, 3, 4, 5, 6]);
}

#[test]
fn test_push_back() {
    let mut sut: ArrayList<_, 3> = ArrayList::new();

    sut.push_back(6);
    assert_eq!(contents(&sut), [6]);

    sut.push_back(5);
    assert_eq!(contents(&sut), [6, 5]);

    sut.push_back(4);
    assert_eq!(contents(&sut), [6, 5, 4]);

    sut.push_back(3);
    assert_eq!(contents(&sut), [6, 5, 4, 3]);

    sut.push_back(2);
    assert_eq!(contents(&sut), [6, 5, 4, 3, 2]);

    sut.push_back(1);
    assert_eq!(contents(&sut), [6, 5, 4, 3, 2, 1]);

    sut.push_back(0);
    assert_eq!(contents(&sut), [6, 5, 4, 3, 2, 1, 0]);
}

#[test]
fn test_insert() {
    let mut sut: ArrayList<_, 3> = ArrayList::new();
    sut.insert(0, 4);
    assert_eq!(contents(&sut), [4]);

    sut.insert(0, 3);
    assert_eq!(contents(&sut), [3, 4]);

    sut.insert(2, 5);
    assert_eq!(contents(&sut), [3, 4, 5]);

    sut.insert(3, 6);
    assert_eq!(contents(&sut), [3, 4, 5, 6]);

    sut.insert(4, 7);
    assert_eq!(contents(&sut), [3, 4, 5, 6, 7]);

    sut.insert(5, 8);
    assert_eq!(contents(&sut), [3, 4, 5, 6, 7, 8]);

    sut.insert(0, 1);
    assert_eq!(contents(&sut), [1, 3, 4, 5, 6, 7, 8]);

    sut.insert(0, 0);
    assert_eq!(contents(&sut), [0, 1, 3, 4, 5, 6, 7, 8]);

    sut.insert(2, 2);
    assert_eq!(contents(&sut), [0, 1, 2, 3, 4, 5, 6, 7, 8],);

    sut.insert(2, 42);
    assert_eq!(contents(&sut), [0, 1, 42, 2, 3, 4, 5, 6, 7, 8]);
}

#[test]
fn test_insert_into_full_array_at_every_index() {
    for i in 0..4 {
        let mut sut: ArrayList<_, 4> = ArrayList::new();
        sut.extend((0..4).collect());
        assert_eq!(sut.len(), 4);
        assert_eq!(contents(&sut), [0, 1, 2, 3]);

        sut.insert(i, 42);
        assert_eq!(sut.len(), 5);

        let mut expected = vec![0, 1, 2, 3];
        expected.insert(i, 42);

        assert_eq!(contents(&sut), expected.as_slice());
    }
}

#[test]
fn test_remove_from_full_array_at_every_index() {
    for i in 0..4 {
        let mut sut: ArrayList<_, 4> = ArrayList::new();
        sut.extend((0..4).collect());
        assert_eq!(sut.len(), 4);
        assert_eq!(contents(&sut), [0, 1, 2, 3]);

        sut.remove(i);
        assert_eq!(sut.len(), 3);

        let mut expected = vec![0, 1, 2, 3];
        expected.remove(i);

        assert_eq!(contents(&sut), expected.as_slice());
    }
}

fn raw_insert_run<const N: usize>() {
    let mut sut = ArrayList::<i32, N>::new();
    assert!(sut.is_empty());
    assert_eq!(sut.len(), 0);
    assert_eq!(sut.front(), None);
    assert_eq!(sut.back(), None);
    assert_eq!(sut.get(0), None);
    assert_eq!(contents(&sut), []);

    sut.insert(0, 42);
    assert!(!sut.is_empty());
    assert_eq!(sut.len(), 1);
    assert_eq!(sut.front(), Some(&42));
    assert_eq!(sut.back(), Some(&42));
    assert_eq!(sut.get(0), Some(&42));
    assert_eq!(contents(&sut), [42]);

    sut.insert(1, 96);
    assert!(!sut.is_empty());
    assert_eq!(sut.len(), 2);
    assert_eq!(sut.front(), Some(&42));
    assert_eq!(sut.back(), Some(&96));
    assert_eq!(sut.get(0), Some(&42));
    assert_eq!(sut.get(1), Some(&96));
    assert_eq!(contents(&sut), [42, 96]);

    sut.insert(1, 64);
    assert!(!sut.is_empty());
    assert_eq!(sut.len(), 3);
    assert_eq!(sut.front(), Some(&42));
    assert_eq!(sut.back(), Some(&96));
    assert_eq!(sut.get(0), Some(&42));
    assert_eq!(sut.get(1), Some(&64));
    assert_eq!(sut.get(2), Some(&96));
    assert_eq!(contents(&sut), [42, 64, 96]);

    sut.insert(0, 32);
    assert!(!sut.is_empty());
    assert_eq!(sut.len(), 4);
    assert_eq!(sut.front(), Some(&32));
    assert_eq!(sut.back(), Some(&96));
    assert_eq!(sut.get(0), Some(&32));
    assert_eq!(sut.get(1), Some(&42));
    assert_eq!(sut.get(2), Some(&64));
    assert_eq!(sut.get(3), Some(&96));
    assert_eq!(contents(&sut), [32, 42, 64, 96]);

    let end = sut.len();
    sut.insert(end, 128);
    assert!(!sut.is_empty());
    assert_eq!(sut.len(), 5);
    assert_eq!(sut.front(), Some(&32));
    assert_eq!(sut.back(), Some(&128));
    assert_eq!(sut.get(0), Some(&32));
    assert_eq!(sut.get(1), Some(&42));
    assert_eq!(sut.get(2), Some(&64));
    assert_eq!(sut.get(3), Some(&96));
    assert_eq!(sut.get(4), Some(&128));
    assert_eq!(contents(&sut), [32, 42, 64, 96, 128]);
}

#[test]
fn test_raw_insert() {
    raw_insert_run::<1>();
    raw_insert_run::<2>();
    raw_insert_run::<3>();
    raw_insert_run::<4>();
    raw_insert_run::<5>();
    raw_insert_run::<8>();
}

fn raw_insert_front_run<const N: usize>() {
    let mut sut = ArrayList::<i32, N>::new();
    assert!(sut.is_empty());
    assert_eq!(sut.len(), 0);
    assert_eq!(sut.front(), None);
    assert_eq!(sut.back(), None);
    assert_eq!(sut.get(0), None);
    assert_eq!(contents(&sut), []);

    let mut acc = Vec::with_capacity(128);
    for i in (0..128).rev() {
        acc.insert(0, i);

        sut.insert(0, i);
        assert!(!sut.is_empty());
        assert_eq!(sut.len(), acc.len());
        assert_eq!(sut.front(), acc.first());
        assert_eq!(sut.back(), acc.last());
        assert_eq!(contents(&sut), acc.as_slice());
    }
}

#[test]
fn test_raw_insert_front() {
    raw_insert_front_run::<1>();
    raw_insert_front_run::<2>();
    raw_insert_front_run::<3>();
    raw_insert_front_run::<4>();
    raw_insert_front_run::<5>();
    raw_insert_front_run::<8>();
    raw_insert_front_run::<16>();
    raw_insert_front_run::<32>();
    raw_insert_front_run::<64>();
}

fn raw_insert_back_run<const N: usize>() {
    let mut sut = ArrayList::<i32, N>::new();
    assert!(sut.is_empty());
    assert_eq!(sut.len(), 0);
    assert_eq!(sut.front(), None);
    assert_eq!(sut.back(), None);
    assert_eq!(sut.get(0), None);
    assert_eq!(contents(&sut), []);

    let mut acc = Vec::with_capacity(128);
    for i in 0..128 {
        acc.push(i);

        let end = sut.len();
        sut.insert(end, i);
        assert!(!sut.is_empty());
        assert_eq!(sut.len(), acc.len());
        assert_eq!(sut.front(), acc.first());
        assert_eq!(sut.back(), acc.last());
        assert_eq!(contents(&sut), acc.as_slice());
    }
}

#[test]
fn test_raw_insert_back() {
    raw_insert_back_run::<1>();
    raw_insert_back_run::<2>();
    raw_insert_back_run::<3>();
    raw_insert_back_run::<4>();
    raw_insert_back_run::<5>();
    raw_insert_back_run::<8>();
    raw_insert_back_run::<16>();
    raw_insert_back_run::<32>();
    raw_insert_back_run::<64>();
}
