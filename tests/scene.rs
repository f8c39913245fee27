use std::cell::RefCell;

use raytrace::scene::HittableList;

/// A primitive on a line: hit at `at`, if `at` lies above the lower bound 1
/// and not beyond the window.
fn probe(at: &u32, window: u32) -> Option<(u32, u32)> {
    if 1 < *at && *at <= window {
        Some((*at, *at))
    } else {
        None
    }
}

#[test]
fn new_list_is_empty() {
    let list: HittableList<u32> = HittableList::new();
    assert_eq!(list.len(), 0);
}

#[test]
fn push_appends() {
    let mut list = HittableList::new();
    list.push(7u32);
    list.push(3u32);
    assert_eq!(list.len(), 2);
}

#[test]
fn empty_scene_hits_nothing() {
    let list: HittableList<u32> = HittableList::new();
    assert_eq!(list.hit(100, probe), None);
}

#[test]
fn nearest_hit_wins_in_any_order() {
    for order in [[9u32, 4, 6], [4, 9, 6], [6, 9, 4], [6, 4, 9]] {
        let mut list = HittableList::new();
        for at in order {
            list.push(at);
        }
        assert_eq!(list.hit(100, probe), Some(4));
    }
}

#[test]
fn window_bounds_the_hits() {
    let mut list = HittableList::new();
    list.push(50u32);
    list.push(1u32);
    list.push(30u32);
    assert_eq!(list.hit(20, probe), None);
    assert_eq!(list.hit(30, probe), Some(30));
    assert_eq!(list.hit(100, probe), Some(30));
}

#[test]
fn later_primitives_see_the_narrowed_window() {
    let mut list = HittableList::new();
    list.push(5u32);
    list.push(8u32);
    let seen = RefCell::new(Vec::new());
    let probe_logged = |at: &u32, window: u32| {
        seen.borrow_mut().push(window);
        probe(at, window)
    };
    let found = list.hit(100, probe_logged);
    assert_eq!(found, Some(5));
    assert_eq!(seen.into_inner(), vec![100, 5]);
}
