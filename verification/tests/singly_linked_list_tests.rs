use singly_linked_list::singly_linked_list::{SinglyLinkedList, SinglyLinkedListNode};

#[test]
fn it_works() {
    assert_eq!(2 + 2, 4);
}

#[test]
fn test_prepend() {
    let mut sll = SinglyLinkedList::new();
    sll.prepend("foo");

    let node = sll.head.expect("error");
    assert_eq!(node.value, "foo");
}

#[test]
fn test_delete_head() {
    let mut sll = SinglyLinkedList::new();
    sll.prepend("foo");

    let val = sll.delete_head();

    assert_eq!(val, Some("foo"));
    assert_eq!(sll.delete_head(), None);
}

#[test]
fn test_append() {
    let mut sll = SinglyLinkedList::new();
    assert_eq!(sll.append("foo"), true);
    assert_eq!(sll.append("bar"), true);

    assert_eq!(sll.tail().expect("error"), "bar");
}

#[test]
fn test_delete_tail() {
    let mut sll = SinglyLinkedList::new();
    sll.append("foo");
    sll.append("bar");
    sll.append("baz");

    assert_eq!(sll.delete_tail(), Some("baz"));
    assert_eq!(sll.tail().expect("error"), "bar");
}

#[test]
fn test_find() {
    let mut sll = SinglyLinkedList::new();
    sll.append("foo");
    sll.append("bar");
    sll.append("baz");

    assert_eq!(Some("bar"), sll.find("bar"));
    assert_eq!(None, sll.find("aaa"));
}

#[test]
fn new_node_has_no_successor() {
    let node = SinglyLinkedListNode::new(5u64);
    assert_eq!(node.value, 5);
    assert!(node.next.is_none());
}

#[test]
fn new_list_is_empty() {
    let sll: SinglyLinkedList<u64> = SinglyLinkedList::new();
    assert!(sll.head.is_none());
    assert_eq!(sll.tail(), None);
    assert_eq!(sll.find(1), None);
}

#[test]
fn append_then_delete_tail_returns_newest_first() {
    let mut sll = SinglyLinkedList::new();
    for v in 1..=4u64 {
        assert!(sll.append(v));
    }
    assert_eq!(sll.delete_tail(), Some(4));
    assert_eq!(sll.delete_tail(), Some(3));
    assert_eq!(sll.delete_tail(), Some(2));
    assert_eq!(sll.delete_tail(), Some(1));
    assert!(sll.head.is_none());
    assert_eq!(sll.delete_tail(), None);
}

#[test]
fn prepend_then_delete_head_returns_newest_first() {
    let mut sll = SinglyLinkedList::new();
    for v in 1..=4u64 {
        assert!(sll.prepend(v));
    }
    assert_eq!(sll.delete_head(), Some(4));
    assert_eq!(sll.delete_head(), Some(3));
    assert_eq!(sll.delete_head(), Some(2));
    assert_eq!(sll.delete_head(), Some(1));
    assert!(sll.head.is_none());
    assert_eq!(sll.delete_head(), None);
}

#[test]
fn deletes_on_empty_list_are_no_ops() {
    let mut sll: SinglyLinkedList<u64> = SinglyLinkedList::new();
    assert_eq!(sll.delete_head(), None);
    assert_eq!(sll.delete_head(), None);
    assert_eq!(sll.delete_tail(), None);
    assert_eq!(sll.delete_tail(), None);
    assert!(sll.head.is_none());
    assert_eq!(sll.tail(), None);
}

#[test]
fn interleaved_operations_keep_head_and_tail_consistent() {
    let mut sll = SinglyLinkedList::new();
    sll.append(1u64);
    sll.prepend(2);
    sll.append(3);
    // contents now: 2, 1, 3
    assert_eq!(sll.head.as_ref().expect("error").value, 2);
    assert_eq!(sll.tail(), Some(3));
    assert_eq!(sll.delete_head(), Some(2));
    // contents now: 1, 3
    assert_eq!(sll.head.as_ref().expect("error").value, 1);
    assert_eq!(sll.tail(), Some(3));
    assert_eq!(sll.delete_tail(), Some(3));
    // contents now: 1
    assert_eq!(sll.head.as_ref().expect("error").value, 1);
    assert_eq!(sll.tail(), Some(1));
    assert_eq!(sll.delete_tail(), Some(1));
    assert!(sll.head.is_none());
    assert_eq!(sll.tail(), None);
}

#[derive(Clone, Copy, Debug)]
struct Keyed {
    key: u64,
    tag: u64,
}

impl PartialEq for Keyed {
    fn eq(&self, other: &Keyed) -> bool {
        self.key == other.key
    }
}

#[test]
fn find_returns_first_of_duplicates() {
    let mut sll = SinglyLinkedList::new();
    sll.append(Keyed { key: 7, tag: 1 });
    sll.append(Keyed { key: 9, tag: 2 });
    sll.append(Keyed { key: 7, tag: 3 });

    let hit = sll.find(Keyed { key: 7, tag: 99 }).expect("error");
    assert_eq!(hit.tag, 1);
    let miss = sll.find(Keyed { key: 8, tag: 0 });
    assert!(miss.is_none());
}
