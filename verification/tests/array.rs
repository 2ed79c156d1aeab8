use arenas::{Arena, ArenaArray};

#[test]
fn test_array() {
    let mut arena = Arena::new(1024);
    let array: Option<ArenaArray<i32>> = ArenaArray::new(&mut arena, 0, 5);

    assert!(array.is_some());

    let array = array.unwrap();

    assert_eq!(array.len(), 0);
    assert_eq!(array.capacity(), 5);
}

#[test]
fn test_invalid_array() {
    let mut arena = Arena::new(1024);
    let array: Option<ArenaArray<i32>> = ArenaArray::new(&mut arena, 5, 0);

    assert_eq!(array, None);
}

#[test]
fn test_array_from_slice() {
    let mut arena = Arena::new(1024);
    let array = ArenaArray::from_slice(&mut arena, &[1, 2, 3, 4, 5]).unwrap();

    assert_eq!(array.len(), 5);
    assert_eq!(array.capacity(), 5);
    assert_eq!(array[0], 1);
    assert_eq!(array[1], 2);
    assert_eq!(array[2], 3);
    assert_eq!(array[3], 4);
    assert_eq!(array[4], 5);
}

#[test]
fn test_array_clone() {
    let mut arena = Arena::new(1024);
    let mut array = ArenaArray::new(&mut arena, 0, 5).unwrap();

    for i in 1..6 {
        array.push(i);
    }

    let clone = array.clone(&mut arena).unwrap();

    assert_eq!(array.len(), 5);
    assert_eq!(array.capacity(), 5);
    assert_eq!(array[0], 1);
    assert_eq!(array[1], 2);
    assert_eq!(array[2], 3);
    assert_eq!(array[3], 4);
    assert_eq!(array[4], 5);

    assert_eq!(clone.len(), 5);
    assert_eq!(clone.capacity(), 5);
    assert_eq!(clone[0], 1);
    assert_eq!(clone[1], 2);
    assert_eq!(clone[2], 3);
    assert_eq!(clone[3], 4);
    assert_eq!(clone[4], 5);
}

#[test]
fn test_array_push() {
    let mut arena = Arena::new(1024);
    let mut array = ArenaArray::new(&mut arena, 0, 10).unwrap();

    array.push(6);
    array.push(7);
    array.push(8);

    assert_eq!(array.len(), 3);
    assert_eq!(array.capacity(), 10);
    assert_eq!(array[0], 6);
    assert_eq!(array[1], 7);
    assert_eq!(array[2], 8);
}

#[test]
fn test_array_pop() {
    let mut arena = Arena::new(1024);
    let mut array = ArenaArray::new(&mut arena, 0, 10).unwrap();

    array.push(6);
    array.push(7);
    array.push(8);

    assert_eq!(array.pop(), Some(&8));
    assert_eq!(array.pop(), Some(&7));
    assert_eq!(array.pop(), Some(&6));
    assert_eq!(array.pop(), None);
}

#[test]
fn test_array_clear() {
    let mut arena = Arena::new(1024);
    let mut array = ArenaArray::new(&mut arena, 0, 10).unwrap();

    array.push(6);
    array.push(7);
    array.push(8);

    assert_eq!(array.len(), 3);
    assert_eq!(array.capacity(), 10);

    array.clear();

    assert_eq!(array.len(), 0);
    assert_eq!(array.capacity(), 10);
}

#[test]
fn test_array_concat() {
    let mut arena = Arena::new(1024);
    let mut array = ArenaArray::new(&mut arena, 0, 10).unwrap();

    array.push(6);
    array.push(7);
    array.push(8);

    assert_eq!(array.len(), 3);
    assert_eq!(array.capacity(), 10);

    let values = [9, 10, 11];
    let result = array.concat(&values);

    assert_eq!(result, Some(6));
    assert_eq!(array.len(), 6);
    assert_eq!(array.capacity(), 10);
    assert_eq!(array[0], 6);
    assert_eq!(array[1], 7);
    assert_eq!(array[2], 8);
    assert_eq!(array[3], 9);
    assert_eq!(array[4], 10);
    assert_eq!(array[5], 11);

    let values = [12, 13, 14, 15, 16, 17, 18, 19];
    let result = array.concat(&values);

    assert_eq!(result, None);
}

#[test]
fn test_array_as_ref() {
    let mut arena = Arena::new(1024);
    let mut array = ArenaArray::new(&mut arena, 0, 10).unwrap();

    array.push(6);
    array.push(7);
    array.push(8);

    let slice = &array;

    assert_eq!(slice.len(), 3);
    assert_eq!(slice[0], 6);
    assert_eq!(slice[1], 7);
    assert_eq!(slice[2], 8);

    let func = |array: &[i32]| {
        assert_eq!(array.len(), 3);
        assert_eq!(array[0], 6);
        assert_eq!(array[1], 7);
        assert_eq!(array[2], 8);
    };

    func(array.as_ref());
}

#[test]
fn test_array_as_mut() {
    let mut arena = Arena::new(1024);
    let mut array = ArenaArray::new(&mut arena, 0, 10).unwrap();

    array.push(6);
    array.push(7);
    array.push(8);

    let func = |array: &mut ArenaArray<i32>| {
        array[0] += 1;
        array[1] += 1;
        array[2] += 1;
    };

    func(&mut array);

    assert_eq!(array.len(), 3);
    assert_eq!(array[0], 7);
    assert_eq!(array[1], 8);
    assert_eq!(array[2], 9);
}

#[test]
fn new_array_reserves_its_capacity() {
    let mut arena = Arena::new(64);
    let array: ArenaArray<u32> = ArenaArray::new(&mut arena, 2, 5).unwrap();
    assert_eq!(arena.occupied(), 20);
    assert_eq!(array.offset(), 0);
    assert_eq!(array.len(), 2);
    assert_eq!(array.capacity(), 5);
    assert_eq!(array.as_ref(), &[0, 0]);
    let second: ArenaArray<u64> = ArenaArray::new(&mut arena, 0, 2).unwrap();
    assert_eq!(second.offset(), 24);
    assert_eq!(arena.occupied(), 40);
}

#[test]
fn new_array_that_does_not_fit_leaves_the_arena() {
    let mut arena = Arena::new(16);
    let refused: Option<ArenaArray<u32>> = ArenaArray::new(&mut arena, 0, 5);
    assert!(refused.is_none());
    assert_eq!(arena.occupied(), 0);
    let refused: Option<ArenaArray<u32>> = ArenaArray::new(&mut arena, 3, 2);
    assert!(refused.is_none());
    assert_eq!(arena.occupied(), 0);
    assert!(ArenaArray::<u32>::from_slice(&mut arena, &[1, 2, 3, 4, 5]).is_none());
    assert_eq!(arena.occupied(), 0);
}

#[test]
fn push_beyond_capacity_changes_nothing() {
    let mut arena = Arena::new(64);
    let mut array = ArenaArray::new(&mut arena, 0, 2).unwrap();
    array.push(1);
    array.push(2);
    array.push(3);
    assert_eq!(array.len(), 2);
    assert_eq!(array.capacity(), 2);
    assert_eq!(array.as_ref(), &[1, 2]);
    assert_eq!(array.pop(), Some(&2));
    assert_eq!(array.pop(), Some(&1));
    assert_eq!(array.pop(), None);
    assert_eq!(array.len(), 0);
    assert!(array.is_empty());
}

#[test]
fn pop_leaves_the_value_in_its_slot() {
    let mut arena = Arena::new(64);
    let mut array = ArenaArray::new(&mut arena, 0, 3).unwrap();
    array.push(5);
    assert_eq!(array.pop(), Some(&5));
    assert_eq!(array.len(), 0);
    assert_eq!(array.get(0), Some(&5));
    assert_eq!(array.get(3), None);
}

#[test]
fn concat_is_all_or_nothing() {
    let mut arena = Arena::new(64);
    let mut array = ArenaArray::new(&mut arena, 0, 4).unwrap();
    assert_eq!(array.concat(&[1, 2, 3]), Some(3));
    assert_eq!(array.concat(&[4, 5]), None);
    assert_eq!(array.len(), 3);
    assert_eq!(array.as_ref(), &[1, 2, 3]);
    assert_eq!(array[3], 0);
    assert_eq!(array.concat(&[]), Some(3));
    assert_eq!(array.concat(&[4]), Some(4));
    assert_eq!(array.as_ref(), &[1, 2, 3, 4]);
    assert_eq!(array.concat(&[]), Some(4));
    assert_eq!(array.concat(&[5]), None);
    assert_eq!(array.as_ref(), &[1, 2, 3, 4]);
}

#[test]
fn slots_beyond_the_length_can_be_written_and_read() {
    let mut arena = Arena::new(64);
    let mut array: ArenaArray<u8> = ArenaArray::new(&mut arena, 1, 3).unwrap();
    assert!(array.set(2, 9));
    assert!(!array.set(3, 9));
    assert_eq!(array.len(), 1);
    assert_eq!(array.get(2), Some(&9));
    assert_eq!(array.as_ptr(), Some(&0));
    *array.as_mut_ptr().unwrap() = 4;
    assert_eq!(array.as_ref(), &[4]);
    assert_eq!(&*array, &[4, 0, 9]);
    assert_eq!(array.get_mut(3), None);
    array.push(7);
    assert_eq!(&*array, &[4, 7, 9]);
}

#[test]
fn array_without_slots_has_no_first_slot() {
    let mut arena = Arena::new(8);
    let mut array: ArenaArray<u32> = ArenaArray::new(&mut arena, 0, 0).unwrap();
    assert_eq!(array.as_ptr(), None);
    assert_eq!(array.as_mut_ptr(), None);
    array.push(1);
    assert_eq!(array.len(), 0);
    assert_eq!(array.concat(&[]), Some(0));
    assert_eq!(arena.occupied(), 0);
}

#[test]
fn clone_has_slots_of_its_own_and_no_free_slot() {
    let mut arena = Arena::new(64);
    let mut array = ArenaArray::new(&mut arena, 0, 4).unwrap();
    array.push(1u32);
    array.push(2u32);
    let mut copy = array.clone(&mut arena).unwrap();
    assert_eq!(copy.capacity(), 2);
    assert_eq!(copy.offset(), 16);
    assert_eq!(arena.occupied(), 24);
    assert!(array.set(0, 10));
    assert!(copy.set(1, 20));
    assert_eq!(array.as_ref(), &[10, 2]);
    assert_eq!(copy.as_ref(), &[1, 20]);
    let mut small = Arena::new(4);
    assert!(array.clone(&mut small).is_none());
    assert_eq!(small.occupied(), 0);
}
