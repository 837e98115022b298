use tinyalloc::list::List;

#[derive(Debug, Default)]
struct TestNode {
    value: i32,
}

fn create_node(value: i32) -> TestNode {
    TestNode { value }
}

#[test]
fn test_push_and_pop() {
    let mut list: List<TestNode> = List::new();

    list.push(create_node(1));
    list.push(create_node(2));
    list.push(create_node(3));

    let popped = list.pop().unwrap();
    assert_eq!(popped.value, 3);

    let popped = list.pop().unwrap();
    assert_eq!(popped.value, 2);

    let popped = list.pop().unwrap();
    assert_eq!(popped.value, 1);

    assert!(list.pop().is_none());
}

#[test]
fn test_iter() {
    let mut list: List<TestNode> = List::new();

    list.push(create_node(10));
    list.push(create_node(20));
    list.push(create_node(30));

    let values: Vec<i32> = list.iter().map(|node| node.value).collect();
    assert_eq!(values, vec![10, 20, 30]);
}

#[test]
fn test_remove() {
    let mut list: List<TestNode> = List::new();

    list.push(create_node(1));
    list.push(create_node(2));
    list.push(create_node(3));

    let removed = list.remove(1).unwrap();
    assert_eq!(removed.value, 2);
    assert!(list.remove(5).is_none());

    let values: Vec<i32> = list.iter().map(|node| node.value).collect();
    assert_eq!(values, vec![1, 3]);
}

#[test]
fn test_insert_operations() {
    let mut list: List<TestNode> = List::new();

    list.push(create_node(2));
    list.insert(0, create_node(1));
    list.insert(2, create_node(3));

    let values: Vec<i32> = list.iter().map(|node| node.value).collect();
    assert_eq!(values, vec![1, 2, 3]);
}

#[test]
fn test_single_list_membership_only() {
    let mut list1: List<TestNode> = List::new();
    let mut list2: List<TestNode> = List::new();

    list1.push(create_node(42));
    assert_eq!(list1.count(), 1);
    assert!(list2.is_empty());

    let node = list1.pop().unwrap();
    list2.push(node);

    assert!(list1.is_empty());
    assert_eq!(list2.count(), 1);

    let removed = list2.pop().unwrap();
    assert_eq!(removed.value, 42);
}

#[test]
fn list_front_operations_and_drain() {
    let mut list: List<TestNode> = List::new();
    list.push(create_node(2));
    list.push_front(create_node(1));
    list.push(create_node(3));
    assert_eq!(list.head().unwrap().value, 1);
    assert_eq!(list.pop_front().unwrap().value, 1);
    let drained: Vec<i32> = list.drain().into_iter().map(|n| n.value).collect();
    assert_eq!(drained, vec![2, 3]);
    assert!(list.is_empty());
    assert!(list.pop_front().is_none());
    assert!(list.get(0).is_none());
}
