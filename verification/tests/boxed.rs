use arenas::{Arena, ArenaBox};

#[test]
fn test_boxed() {
    let mut arena = Arena::new(1024);
    let mut boxed = arena.push(42).unwrap();

    assert_eq!(*boxed, 42);
    *boxed = 43;
    assert_eq!(*boxed, 43);
    assert_eq!(arena.occupied(), core::mem::size_of::<i32>());

    let cloned = boxed.clone(&mut arena).unwrap();
    assert_eq!(*cloned, 43);
    *boxed = 44;

    assert_eq!(*boxed, 44);
    assert_eq!(*cloned, 43);

    assert_eq!(arena.occupied(), core::mem::size_of::<i32>() * 2);
}

#[test]
fn test_boxed_as_ref() {
    let mut arena = Arena::new(1024);
    let boxed = arena.push(42).unwrap();

    assert_eq!(boxed.as_ref(), &42);
}

#[test]
fn test_boxed_as_mut() {
    let mut arena = Arena::new(1024);
    let mut boxed = arena.push(42).unwrap();

    assert_eq!(boxed.as_mut(), &mut 42);
}

#[test]
fn test_boxed_as_mut_ptr() {
    let mut arena = Arena::new(1024);
    let mut boxed = arena.push(42).unwrap();

    let ptr = boxed.as_mut_ptr();
    *ptr = 43;

    assert_eq!(*boxed, 43);
}

#[test]
fn test_boxed_as_ptr() {
    let mut arena = Arena::new(1024);
    let boxed = arena.push(42).unwrap();

    let ptr = boxed.as_ptr();
    assert_eq!(*ptr, 42);
}

#[test]
fn test_boxed_deref() {
    let mut arena = Arena::new(1024);
    let boxed = arena.push(42).unwrap();

    assert_eq!(*boxed, 42);
}

#[test]
fn test_boxed_deref_mut() {
    let mut arena = Arena::new(1024);
    let mut boxed = arena.push(42).unwrap();

    *boxed = 43;

    assert_eq!(*boxed, 43);
}

#[test]
fn test_boxed_clone() {
    let mut arena = Arena::new(1024);
    let mut boxed = arena.push(42).unwrap();
    let cloned = boxed.clone(&mut arena).unwrap();

    assert_eq!(*cloned, 42);
    assert_eq!(*boxed, 42);

    *boxed = 43;

    assert_eq!(*boxed, 43);
    assert_eq!(*cloned, 42);
    assert_eq!(arena.occupied(), core::mem::size_of::<i32>() * 2);
}

#[test]
fn box_that_does_not_fit_leaves_the_arena() {
    let mut arena = Arena::new(6);
    let first: ArenaBox<u32> = ArenaBox::from_value(&mut arena, 1).unwrap();
    assert_eq!(first.offset(), 0);
    assert!(ArenaBox::<u32>::from_value(&mut arena, 2).is_none());
    assert!(ArenaBox::<u32>::new(&mut arena).is_none());
    assert!(first.clone(&mut arena).is_none());
    assert_eq!(arena.occupied(), 4);
    let small: ArenaBox<u8> = ArenaBox::new(&mut arena).unwrap();
    assert_eq!(*small, 0);
    assert_eq!(small.offset(), 4);
    assert_eq!(arena.occupied(), 5);
}

#[test]
fn box_is_placed_at_its_alignment() {
    let mut arena = Arena::new(32);
    let byte: ArenaBox<u8> = arena.push(1).unwrap();
    let word: ArenaBox<u64> = arena.push(2).unwrap();
    assert_eq!(byte.offset(), 0);
    assert_eq!(word.offset(), 8);
    assert_eq!(arena.occupied(), 16);
}
