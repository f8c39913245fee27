use raytrace::radiance::{Event, PathState, Step, Terminal};

#[test]
fn zero_depth_is_black_without_tracing() {
    let s = PathState::new(0);
    assert_eq!(s.next_step(), Step::Stop(Terminal::Black));
    let s = PathState::new(-3);
    assert_eq!(s.next_step(), Step::Stop(Terminal::Black));
}

#[test]
fn miss_ends_in_sky() {
    let mut s = PathState::new(5);
    assert_eq!(s.next_step(), Step::Trace);
    s.record(Event::Miss);
    assert_eq!(s.next_step(), Step::Stop(Terminal::Sky));
    assert_eq!(s.remaining, 5);
}

#[test]
fn absorption_ends_in_black() {
    let mut s = PathState::new(2);
    s.record(Event::Scattered);
    assert_eq!(s.next_step(), Step::Trace);
    s.record(Event::Absorbed);
    assert_eq!(s.next_step(), Step::Stop(Terminal::Black));
}

#[test]
fn scattering_uses_up_depth() {
    let mut s = PathState::new(3);
    let mut traced = 0;
    while s.next_step() == Step::Trace {
        s.record(Event::Scattered);
        traced += 1;
    }
    assert_eq!(traced, 3);
    assert_eq!(s.remaining, 0);
    assert_eq!(s.next_step(), Step::Stop(Terminal::Black));
}

#[test]
fn depth_one_then_miss_is_sky() {
    let mut s = PathState::new(1);
    assert_eq!(s.next_step(), Step::Trace);
    s.record(Event::Miss);
    assert_eq!(s.next_step(), Step::Stop(Terminal::Sky));
}
