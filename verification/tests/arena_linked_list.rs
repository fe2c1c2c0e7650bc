use risu::{ArenaError, ArenaLinkedList, NO_INDEX};

fn contents(list: &ArenaLinkedList<&'static str>) -> Vec<&'static str> {
    let mut values = Vec::new();
    let mut cursor = list.iter();
    while let Some(value) = cursor.next() {
        values.push(*value);
    }
    values
}

#[test]
fn arena_linked_list_test_arena_linked_list() {
    let mut list = ArenaLinkedList::<&str>::new_with_capacity(10);
    assert_eq!(list.count(), 0);

    // Add "hello"
    let hello_index = list.add_first("hello").expect("Failed adding hello");
    assert_eq!(list.count(), 1);

    // Add "world" last
    let world_index = list.add_last("world").expect("Failed adding world");
    assert_eq!(list.count(), 2);

    // Insert "wonderful" before "world"
    let wonderful_index = list
        .add_before("wonderful", world_index)
        .expect("Failed adding wonderful");
    assert_eq!(list.count(), 3);

    // Get
    let hello_node = list.get(hello_index).expect("Failed getting hello");
    assert_eq!(hello_node.get_value().unwrap(), "hello");

    // Iterate
    let content = contents(&list).join(" ");
    println!("-> {}", content);
    assert_eq!(content, "hello wonderful world");

    // Remove "hello"
    list.remove(hello_index).expect("Failed removing hello");
    assert_eq!(list.count(), 2);
    assert!(list.remove(hello_index).is_err());

    // Remove "wonderful"
    list.remove(wonderful_index).expect("Failed removing wonderful");
    assert_eq!(list.count(), 1);
    assert!(list.remove(wonderful_index).is_err());

    // Remove "world"
    list.remove(world_index).expect("Failed removing world");
    assert_eq!(list.count(), 0);
    assert!(list.remove(world_index).is_err());
}

#[test]
fn handles_are_handed_out_in_ascending_order_and_reused_last_in_first_out() {
    let mut list = ArenaLinkedList::<u32>::new_with_capacity(2);
    let a = list.add_last(10).unwrap();
    let b = list.add_last(20).unwrap();
    assert_eq!((a, b), (0, 1));
    // The arena is full: the next insertion doubles it and uses the first new slot.
    let c = list.add_last(30).unwrap();
    assert_eq!(c, 2);
    list.remove(a).unwrap();
    list.remove(c).unwrap();
    // The slot freed last is used first.
    assert_eq!(list.add_first(40).unwrap(), c);
    assert_eq!(list.add_first(50).unwrap(), a);
    assert_eq!(list.add_first(60).unwrap(), 3);
    let mut values = Vec::new();
    let mut cursor = list.iter();
    while let Some(value) = cursor.next() {
        values.push(*value);
    }
    assert_eq!(values, vec![60, 50, 40, 20]);
}

#[test]
fn handles_stay_valid_across_growth() {
    let mut list = ArenaLinkedList::<usize>::new_with_capacity(1);
    let mut handles = Vec::new();
    for i in 0..100 {
        handles.push(list.add_last(i).unwrap());
    }
    assert_eq!(list.count(), 100);
    for (i, handle) in handles.iter().enumerate() {
        assert_eq!(*list.get(*handle).unwrap().get_value(), Some(i));
    }
}

#[test]
fn add_before_and_after_place_the_value_next_to_the_handle() {
    let mut list = ArenaLinkedList::<&str>::new_with_capacity(4);
    let b = list.add_first("b").unwrap();
    list.add_before("a", b).unwrap();
    let d = list.add_after("d", b).unwrap();
    list.add_before("c", d).unwrap();
    list.add_after("e", d).unwrap();
    assert_eq!(contents(&list), vec!["a", "b", "c", "d", "e"]);
    assert_eq!(list.get_first_index().map(|h| *list.get(h).unwrap().get_value()), Ok(Some("a")));
    assert_eq!(list.get_last_index().map(|h| *list.get(h).unwrap().get_value()), Ok(Some("e")));
}

#[test]
fn invalid_handles_are_refused_and_change_nothing() {
    let mut list = ArenaLinkedList::<&str>::new_with_capacity(2);
    assert_eq!(list.add_before("x", 0), Err(ArenaError::InvalidHandle));
    assert_eq!(list.add_after("x", NO_INDEX), Err(ArenaError::InvalidHandle));
    assert_eq!(list.remove(NO_INDEX), Err(ArenaError::InvalidHandle));
    assert_eq!(list.remove(7), Err(ArenaError::InvalidHandle));
    assert!(list.get(0).is_err());
    assert!(list.get(2).is_err());
    assert_eq!(list.count(), 0);
    assert_eq!(list.get_first_index(), Err(()));
    assert_eq!(list.get_last_index(), Err(()));
    let a = list.add_last("a").unwrap();
    assert_eq!(list.add_before("x", 1), Err(ArenaError::InvalidHandle));
    assert_eq!(contents(&list), vec!["a"]);
    assert_eq!(list.get_first_index(), Ok(a));
    assert_eq!(list.get_last_index(), Ok(a));
}

#[test]
fn clear_empties_the_list_and_frees_every_slot() {
    let mut list = ArenaLinkedList::<u8>::new_with_capacity(0);
    let a = list.add_last(1).unwrap();
    let b = list.add_last(2).unwrap();
    list.clear();
    assert_eq!(list.count(), 0);
    assert!(list.get(a).is_err());
    assert!(list.get(b).is_err());
    assert!(list.iter().next().is_none());
    assert_eq!(list.add_last(3).unwrap(), 0);
    assert_eq!(list.add_last(4).unwrap(), 1);
}

#[test]
fn a_node_reports_its_successor() {
    let mut list = ArenaLinkedList::<char>::new_with_capacity(3);
    let a = list.add_last('a').unwrap();
    let b = list.add_last('b').unwrap();
    assert_eq!(list.get(a).unwrap().get_after_index(), b);
    assert_eq!(list.get(b).unwrap().get_after_index(), NO_INDEX);
}

#[test]
fn test_arena_linked_list() {
    let list = ArenaLinkedList::<u32>::new_with_capacity(10);
    assert_eq!(list.count(), 0);
}
