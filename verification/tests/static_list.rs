use ak_os_kernel::util::static_list::{ArrayFullError, StaticList};

#[test]
fn a_new_list_is_empty() {
    let list: StaticList<u32, 4> = StaticList::new();
    assert!(matches!(list, StaticList::Array(_)));
    assert_eq!(list.len(), 0);
    assert!(list.iter().is_empty());
}

#[test]
fn push_back_fills_the_array_in_order() {
    let mut list: StaticList<u32, 3> = StaticList::new();
    assert_eq!(list.push_back(1), Ok(()));
    assert_eq!(list.push_back(2), Ok(()));
    assert_eq!(list.push_back(3), Ok(()));
    assert_eq!(list.iter(), vec![1, 2, 3]);
    assert_eq!(list.push_back(4), Err(ArrayFullError));
    assert_eq!(list.iter(), vec![1, 2, 3]);
    assert_eq!(ArrayFullError.message(), "array is full");
}

#[test]
fn push_front_shifts_the_items() {
    let mut list: StaticList<u32, 3> = StaticList::new();
    assert_eq!(list.push_back(2), Ok(()));
    assert_eq!(list.push_front(1), Ok(()));
    assert_eq!(list.push_front(0), Ok(()));
    assert_eq!(list.iter(), vec![0, 1, 2]);
    assert_eq!(list.push_front(9), Err(ArrayFullError));
    assert_eq!(list.len(), 3);
}

#[test]
fn a_list_without_slots_is_always_full() {
    let mut list: StaticList<u8, 0> = StaticList::new();
    assert_eq!(list.push_back(1), Err(ArrayFullError));
    assert_eq!(list.push_front(1), Err(ArrayFullError));
}

#[test]
fn the_heap_list_has_no_bound() {
    let mut list: StaticList<u32, 2> = StaticList::new();
    assert_eq!(list.push_back(1), Ok(()));
    assert_eq!(list.push_back(2), Ok(()));
    list.convert_to_heap_allocated();
    assert!(matches!(list, StaticList::Heap(_)));
    assert_eq!(list.iter(), vec![1, 2]);
    assert_eq!(list.push_back(3), Ok(()));
    assert_eq!(list.push_front(0), Ok(()));
    assert_eq!(list.iter(), vec![0, 1, 2, 3]);
    list.convert_to_heap_allocated();
    assert_eq!(list.iter(), vec![0, 1, 2, 3]);
}

#[test]
fn iter_mut_updates_each_item() {
    let mut list: StaticList<u32, 4> = StaticList::new();
    for i in 1..=3 {
        assert_eq!(list.push_back(i), Ok(()));
    }
    list.iter_mut(|x| x * 10);
    assert_eq!(list.iter(), vec![10, 20, 30]);
    assert_eq!(list.push_back(4), Ok(()));
    list.convert_to_heap_allocated();
    list.iter_mut(|x| x + 1);
    assert_eq!(list.iter(), vec![11, 21, 31, 5]);
}
