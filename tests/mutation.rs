use evo::VecMutation;

#[test]
fn test_vec_mutation_insert() {
    let mut vec = vec![0, 1, 2, 3, 4, 5];

    let mutation = VecMutation::Insert(0, 10);
    mutation.apply(&mut vec);
    assert_eq!(vec, vec![10, 0, 1, 2, 3, 4, 5]);
}

#[test]
fn test_vec_mutation_replace() {
    let mut vec = vec![0, 1, 2, 3, 4, 5];

    let mutation = VecMutation::Replace(3, 11);
    mutation.apply(&mut vec);
    assert_eq!(vec, vec![0, 1, 2, 11, 4, 5]);
}

#[test]
fn test_vec_mutation_remove() {
    let mut vec = vec![0, 1, 2, 3, 4, 5];

    let mutation = VecMutation::Remove(3);
    mutation.apply(&mut vec);
    assert_eq!(vec, vec![0, 1, 2, 4, 5]);
}

#[test]
fn test_vec_mutation_swap() {
    let mut vec = vec![0, 1, 2, 3, 4, 5];

    let mutation = VecMutation::Swap(0, 1);
    mutation.apply(&mut vec);
    assert_eq!(vec, vec![1, 0, 2, 3, 4, 5]);
}

#[test]
fn test_vec_mutation_reverse() {
    let mut vec = vec![0, 1, 2, 3, 4, 5];

    let mutation = VecMutation::Reverse(1, 4);
    mutation.apply(&mut vec);
    assert_eq!(vec, vec![0, 4, 3, 2, 1, 5]);
}

#[test]
fn reverse_with_indexes_in_either_order() {
    let mut vec = vec![0, 1, 2, 3, 4, 5];
    VecMutation::Reverse(4, 1).apply(&mut vec);
    assert_eq!(vec, vec![0, 4, 3, 2, 1, 5]);

    let mut whole = vec![0, 1, 2, 3, 4, 5];
    VecMutation::Reverse(0, 5).apply(&mut whole);
    assert_eq!(whole, vec![5, 4, 3, 2, 1, 0]);
}

#[test]
fn reverse_and_swap_on_one_index_change_nothing() {
    let mut vec = vec![0, 1, 2];
    VecMutation::Reverse(2, 2).apply(&mut vec);
    VecMutation::Swap(1, 1).apply(&mut vec);
    assert_eq!(vec, vec![0, 1, 2]);
}

#[test]
fn insert_at_end_and_swap_backwards() {
    let mut vec = vec![0, 1, 2];
    VecMutation::Insert(3, 9).apply(&mut vec);
    assert_eq!(vec, vec![0, 1, 2, 9]);
    VecMutation::Swap(3, 0).apply(&mut vec);
    assert_eq!(vec, vec![9, 1, 2, 0]);
}

#[test]
fn keeping_length_skips_insert_and_remove() {
    let mut vec = vec![0, 1, 2, 3];
    VecMutation::Insert(1, 7).apply_keeping_length(&mut vec);
    assert_eq!(vec, vec![0, 1, 2, 3]);
    VecMutation::Remove(1).apply_keeping_length(&mut vec);
    assert_eq!(vec, vec![0, 1, 2, 3]);
    VecMutation::Replace(1, 7).apply_keeping_length(&mut vec);
    assert_eq!(vec, vec![0, 7, 2, 3]);
    VecMutation::Swap(0, 3).apply_keeping_length(&mut vec);
    assert_eq!(vec, vec![3, 7, 2, 0]);
    VecMutation::Reverse(0, 2).apply_keeping_length(&mut vec);
    assert_eq!(vec, vec![2, 7, 3, 0]);
}

#[test]
fn new_mutations_fit_the_sequence() {
    let mut kinds = [false; 5];
    for _ in 0..500 {
        let mutation = VecMutation::new(4, || 42);
        match mutation {
            VecMutation::Insert(i, x) => {
                assert!(i < 4);
                assert_eq!(x, 42);
                kinds[0] = true;
            }
            VecMutation::Replace(i, x) => {
                assert!(i < 4);
                assert_eq!(x, 42);
                kinds[1] = true;
            }
            VecMutation::Remove(i) => {
                assert!(i < 4);
                kinds[2] = true;
            }
            VecMutation::Swap(i, j) => {
                assert!(i < 4 && j < 4);
                kinds[3] = true;
            }
            VecMutation::Reverse(i, j) => {
                assert!(i < 4 && j < 4);
                kinds[4] = true;
            }
        }
    }
    assert!(kinds.iter().all(|k| *k));
}

#[test]
fn from_draw_builds_each_kind() {
    assert!(matches!(VecMutation::from_draw(0, 2, 1, Some(7)), VecMutation::Insert(2, 7)));
    assert!(matches!(VecMutation::from_draw(1, 2, 1, Some(7)), VecMutation::Replace(2, 7)));
    assert!(matches!(VecMutation::from_draw(2, 2, 1, None::<i32>), VecMutation::Remove(2)));
    assert!(matches!(VecMutation::from_draw(3, 2, 1, None::<i32>), VecMutation::Swap(2, 1)));
    assert!(matches!(VecMutation::from_draw(4, 2, 1, None::<i32>), VecMutation::Reverse(2, 1)));
    assert!(matches!(VecMutation::from_draw(9, 0, 3, Some(5)), VecMutation::Reverse(0, 3)));
}

#[test]
fn reverse_on_one_index_past_the_end_changes_nothing() {
    let mut vec = vec![0, 1, 2];
    VecMutation::Reverse(7, 7).apply(&mut vec);
    assert_eq!(vec, vec![0, 1, 2]);
}
