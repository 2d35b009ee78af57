use immutable_list::ImmutableList;
use immutable_list::Node;
use std::rc::Rc;

#[test]
fn test_prepend() {
    let im_list = ImmutableList::new();
    let new_list = im_list.prepend(1);
    assert_eq!(new_list, ImmutableList { head: Some(Rc::new(Node { value: 1, next: None })) });
}

#[test]
fn test_len() {
    let im_list = ImmutableList::new();
    let new_list = im_list.prepend(1);
    assert_eq!(new_list.len(), 1);

    let new_list = new_list.prepend(2);
    assert_eq!(new_list.len(), 2);
}

#[test]
fn test_is_empty() {
    let im_list = ImmutableList::new();
    assert!(im_list.is_empty());

    let new_list = im_list.prepend(1);
    assert!(!new_list.is_empty());
}

#[test]
fn test_iter() {
    let im_list = ImmutableList::new();
    let new_list = im_list.prepend(1);
    let new_list = new_list.prepend(2);
    let mut iter = new_list.iter();
    assert_eq!(iter.next(), Some(&2));
    assert_eq!(iter.next(), Some(&1));
    assert_eq!(iter.next(), None);
}

#[test]
fn test_index() {
    let im_list = ImmutableList::new();
    assert_eq!(im_list.index(0), None);

    let new_list = im_list.prepend(2);
    assert_eq!(new_list.index(0), Some(&2));
}
