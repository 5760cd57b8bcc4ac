use core::ops::ControlFlow;
use peeking_map::PeekingMap;
use std::collections::VecDeque;

fn double(x: i32) -> i32 {
    x * 2
}

fn five(_: i32) -> &'static str {
    "five"
}

fn accept_below_ten(item: &mut i32) -> ControlFlow<Option<i32>, fn(i32) -> i32> {
    if *item < 10 {
        ControlFlow::Continue(double)
    } else {
        ControlFlow::Break(None)
    }
}

fn accept_fives(item: &mut i32) -> ControlFlow<Option<&'static str>, fn(i32) -> &'static str> {
    if *item == 5 {
        ControlFlow::Continue(five)
    } else {
        ControlFlow::Break(Some("last"))
    }
}

#[test]
fn doubles_while_below_ten() {
    let mut source = VecDeque::from(vec![1, 2, 3, 10, 4]);
    let mut transformer = PeekingMap::new(&mut source, accept_below_ten);
    assert_eq!(transformer.next(), Some(2));
    assert_eq!(transformer.next(), Some(4));
    assert_eq!(transformer.next(), Some(6));
    assert_eq!(transformer.next(), None);
    assert_eq!(transformer.next(), None);
    assert_eq!(source, VecDeque::from(vec![10, 4]));
}

#[test]
fn doubles_while_below_ten_collected() {
    let mut source = VecDeque::from(vec![1, 2, 3, 10, 4]);
    let outputs = PeekingMap::new(&mut source, accept_below_ten).collect();
    assert_eq!(outputs, vec![2, 4, 6]);
    assert_eq!(source.pop_front(), Some(10));
    assert_eq!(source.pop_front(), Some(4));
    assert_eq!(source.pop_front(), None);
}

#[test]
fn fives_then_last() {
    let mut source = VecDeque::from(vec![5, 5, 5, 9]);
    let mut transformer = PeekingMap::new(&mut source, accept_fives);
    assert_eq!(transformer.next(), Some("five"));
    assert_eq!(transformer.next(), Some("five"));
    assert_eq!(transformer.next(), Some("five"));
    assert_eq!(transformer.next(), Some("last"));
    assert_eq!(transformer.next(), None);
    assert_eq!(source, VecDeque::from(vec![9]));
}

#[test]
fn fives_then_last_collected() {
    let mut source = VecDeque::from(vec![5, 5, 5, 9]);
    let outputs = PeekingMap::new(&mut source, accept_fives).collect();
    assert_eq!(outputs, vec!["five", "five", "five", "last"]);
    assert_eq!(source, VecDeque::from(vec![9]));
}

#[test]
fn reject_with_value_keeps_the_item() {
    let mut source = VecDeque::from(vec![9, 5]);
    let mut transformer = PeekingMap::new(&mut source, accept_fives);
    assert_eq!(transformer.next(), Some("last"));
    assert_eq!(transformer.next(), None);
    assert_eq!(source, VecDeque::from(vec![9, 5]));
}

#[test]
fn reject_without_value_keeps_the_item() {
    let mut source = VecDeque::from(vec![10, 1]);
    let mut transformer = PeekingMap::new(&mut source, accept_below_ten);
    assert_eq!(transformer.next(), None);
    assert_eq!(source, VecDeque::from(vec![10, 1]));
}

#[test]
fn source_can_be_taken_up_again() {
    let mut source = VecDeque::from(vec![1, 10, 2, 3, 20]);
    assert_eq!(PeekingMap::new(&mut source, accept_below_ten).collect(), vec![2]);
    assert_eq!(source.pop_front(), Some(10));
    assert_eq!(PeekingMap::new(&mut source, accept_below_ten).collect(), vec![4, 6]);
    assert_eq!(source, VecDeque::from(vec![20]));
}
