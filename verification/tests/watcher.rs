use std::borrow::{Borrow, BorrowMut};
use std::cell::RefCell;

use todo_core::watcher::Watcher;

type Callback<'a, T> = Box<dyn Fn(&T) + 'a>;

#[test]
fn three_writes_are_three_notifications() {
    let seen: RefCell<Vec<Option<i32>>> = RefCell::new(Vec::new());
    {
        let mut watcher: Watcher<Option<i32>, Callback<Option<i32>>> = Watcher::new(None);
        watcher.connect_notify(Box::new(|v: &Option<i32>| seen.borrow_mut().push(*v)));

        let mut guard = watcher.borrow_mut();
        *guard = Some(1);
        guard.release();

        let mut guard = watcher.borrow_mut();
        *guard = Some(1);
        guard.release();

        let mut guard = watcher.borrow_mut();
        *guard = None;
        guard.release();

        assert_eq!(*watcher, None);
    }
    assert_eq!(*seen.borrow(), vec![Some(1), Some(1), None]);
}

#[test]
fn callbacks_are_called_in_the_order_of_registration() {
    let seen: RefCell<Vec<(usize, i32)>> = RefCell::new(Vec::new());
    {
        let mut watcher: Watcher<i32, Callback<i32>> = Watcher::new(0);
        for k in 0..5 {
            let seen = &seen;
            watcher.connect_notify(Box::new(move |v: &i32| seen.borrow_mut().push((k, *v))));
        }
        watcher.set(7);
        watcher.set(8);
    }
    let expected: Vec<(usize, i32)> =
        (0..5).map(|k| (k, 7)).chain((0..5).map(|k| (k, 8))).collect();
    assert_eq!(*seen.borrow(), expected);
}

#[test]
fn a_callback_registered_twice_is_called_twice() {
    let count = RefCell::new(0);
    {
        let bump = |_: &u8| *count.borrow_mut() += 1;
        let mut watcher = Watcher::new(0u8);
        watcher.connect_notify(&bump);
        watcher.connect_notify(&bump);
        watcher.set(1);
    }
    assert_eq!(*count.borrow(), 2);
}

#[test]
fn a_watcher_without_callbacks_can_be_written() {
    let mut watcher: Watcher<String, Callback<String>> = Watcher::new(String::new());
    let mut guard = watcher.borrow_mut();
    guard.push_str("abc");
    assert_eq!(guard.as_str(), "abc");
    guard.release();
    watcher.set("xyz".to_string());
    assert_eq!(watcher.as_str(), "xyz");
}

#[test]
fn registration_calls_nobody_and_a_later_callback_hears_later_writes_only() {
    let early: RefCell<Vec<i32>> = RefCell::new(Vec::new());
    let late: RefCell<Vec<i32>> = RefCell::new(Vec::new());
    {
        let mut watcher: Watcher<i32, Callback<i32>> = Watcher::new(1);
        watcher.connect_notify(Box::new(|v: &i32| early.borrow_mut().push(*v)));
        assert!(early.borrow().is_empty());
        watcher.set(2);
        watcher.connect_notify(Box::new(|v: &i32| late.borrow_mut().push(*v)));
        watcher.set(3);
    }
    assert_eq!(*early.borrow(), vec![2, 3]);
    assert_eq!(*late.borrow(), vec![3]);
}

#[test]
fn the_callbacks_hear_of_the_value_as_the_write_left_it() {
    let seen: RefCell<Vec<i32>> = RefCell::new(Vec::new());
    {
        let mut watcher: Watcher<i32, Callback<i32>> = Watcher::new(0);
        watcher.connect_notify(Box::new(|v: &i32| seen.borrow_mut().push(*v)));
        let mut guard = watcher.borrow_mut();
        *guard = 1;
        *guard += 10;
        assert!(seen.borrow().is_empty());
        guard.release();
    }
    assert_eq!(*seen.borrow(), vec![11]);
}

#[test]
fn a_guard_that_is_dropped_announces_nothing() {
    let seen: RefCell<Vec<i32>> = RefCell::new(Vec::new());
    {
        let mut watcher: Watcher<i32, Callback<i32>> = Watcher::new(0);
        watcher.connect_notify(Box::new(|v: &i32| seen.borrow_mut().push(*v)));
        {
            let mut guard = watcher.borrow_mut();
            *guard = 5;
        }
        assert_eq!(*watcher, 5);
    }
    assert!(seen.borrow().is_empty());
}

#[test]
fn the_default_watcher_holds_the_default_value() {
    let watcher: Watcher<Option<u64>, Callback<Option<u64>>> = Watcher::default();
    assert_eq!(*watcher, None);
}

fn halve_or_stop(v: &i32) -> i32 {
    if *v % 2 != 0 {
        return *v;
    }
    *v / 2
}

#[test]
fn a_write_that_leaves_early_is_announced_all_the_same() {
    let seen: RefCell<Vec<i32>> = RefCell::new(Vec::new());
    {
        let mut watcher: Watcher<i32, Callback<i32>> = Watcher::new(12);
        watcher.connect_notify(Box::new(|v: &i32| seen.borrow_mut().push(*v)));
        watcher.update(halve_or_stop);
        watcher.update(halve_or_stop);
        watcher.update(halve_or_stop);
        watcher.update(halve_or_stop);
        assert_eq!(*watcher, 3);
    }
    assert_eq!(*seen.borrow(), vec![6, 3, 3, 3]);
}

#[test]
fn an_update_calls_every_callback_once_in_order() {
    let seen: RefCell<Vec<(u8, String)>> = RefCell::new(Vec::new());
    {
        let mut watcher: Watcher<String, Callback<String>> = Watcher::new("a".to_string());
        watcher.connect_notify(Box::new(|v: &String| seen.borrow_mut().push((0, v.clone()))));
        watcher.connect_notify(Box::new(|v: &String| seen.borrow_mut().push((1, v.clone()))));
        watcher.update(|v: &String| format!("{v}b"));
        assert_eq!(watcher.as_str(), "ab");
    }
    assert_eq!(*seen.borrow(), vec![(0, "ab".to_string()), (1, "ab".to_string())]);
}

#[test]
fn the_value_can_be_borrowed_from_the_watcher_and_from_the_guard() {
    let mut watcher: Watcher<i32, Callback<i32>> = Watcher::new(4);
    {
        let value: &i32 = watcher.borrow();
        assert_eq!(*value, 4);
    }
    let mut guard = Watcher::borrow_mut(&mut watcher);
    {
        let value: &mut i32 = BorrowMut::borrow_mut(&mut guard);
        *value = 5;
    }
    {
        let value: &i32 = Borrow::borrow(&guard);
        assert_eq!(*value, 5);
    }
    guard.release();
    assert_eq!(*watcher, 5);
}
