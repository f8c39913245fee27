use vstd::prelude::*;

use crate::scene::{is_sweep, last_hit};

verus! {

/// What tracing one segment of a path found.
#[derive(Clone, Copy, Debug, PartialEq, Eq, Structural)]
pub enum Event {
    /// No primitive was hit: the segment leaves the scene.
    Miss,
    /// A primitive was hit and its material absorbed the ray.
    Absorbed,
    /// A primitive was hit and its material scattered the ray onward.
    Scattered,
}

/// The value that ends a path, before the attenuations gathered along it are applied.
#[derive(Clone, Copy, Debug, PartialEq, Eq, Structural)]
pub enum Terminal {
    /// No light: the depth ran out or the ray was absorbed.
    Black,
    /// The sky gradient seen along the last segment's direction.
    Sky,
}

/// What the estimator does next.
#[derive(Clone, Copy, Debug, PartialEq, Eq, Structural)]
pub enum Step {
    /// Trace the current segment against the scene.
    Trace,
    /// The path is over: its value is the terminal times the attenuations.
    Stop(Terminal),
}

/// How a path that starts with `depth` segments allowed ends after `events`,
/// or `None` while it is still to be traced further.
pub open spec fn path_end(depth: int, events: Seq<Event>) -> Option<Terminal>
    decreases events.len(),
{
    if depth <= 0 {
        Some(Terminal::Black)
    } else if events.len() == 0 {
        None
    } else {
        match events[0] {
            Event::Miss => Some(Terminal::Sky),
            Event::Absorbed => Some(Terminal::Black),
            Event::Scattered => path_end(depth - 1, events.drop_first()),
        }
    }
}

/// The control state of the recursive radiance estimator, run as a loop: the
/// segments it may still trace, and how the path ended once it has.
pub struct PathState {
    pub remaining: i32,
    pub ended: Option<Terminal>,
}

/// The step that `s` calls for.
pub open spec fn step_of(s: PathState) -> Step {
    match s.ended {
        Some(t) => Step::Stop(t),
        None => if s.remaining <= 0 {
            Step::Stop(Terminal::Black)
        } else {
            Step::Trace
        },
    }
}

/// The state after recording `event` in `s`: a miss ends the path in the sky, an
/// absorption ends it in black, a scattering uses up one segment.
pub open spec fn after(s: PathState, event: Event) -> PathState {
    match event {
        Event::Miss => PathState { ended: Some(Terminal::Sky), ..s },
        Event::Absorbed => PathState { ended: Some(Terminal::Black), ..s },
        Event::Scattered => PathState { remaining: (s.remaining - 1) as i32, ..s },
    }
}

/// The state after feeding `events` to `s` one by one, each while `s` still calls for tracing.
pub open spec fn replay(s: PathState, events: Seq<Event>) -> PathState
    decreases events.len(),
{
    if events.len() == 0 || step_of(s) != Step::Trace {
        s
    } else {
        replay(after(s, events[0]), events.drop_first())
    }
}

/// The step that a path end calls for.
pub open spec fn step_for(end: Option<Terminal>) -> Step {
    match end {
        Some(t) => Step::Stop(t),
        None => Step::Trace,
    }
}

impl PathState {
    /// The state at the start of a path of at most `max_depth` segments.
    pub fn new(max_depth: i32) -> (r: Self)
        ensures
            r.remaining == max_depth,
            r.ended == None::<Terminal>,
    {
        PathState { remaining: max_depth, ended: None }
    }

    /// What to do next: stop with black once no segment is left, stop with the
    /// recorded terminal once the path has ended, and trace otherwise.
    pub fn next_step(&self) -> (r: Step)
        ensures
            r == step_of(*self),
    {
        match self.ended {
            Some(t) => Step::Stop(t),
            None => if self.remaining <= 0 {
                Step::Stop(Terminal::Black)
            } else {
                Step::Trace
            },
        }
    }

    /// Records what the segment that was just traced found.
    pub fn record(&mut self, event: Event)
        requires
            step_of(*old(self)) == Step::Trace,
        ensures
            *final(self) == after(*old(self), event),
    {
        match event {
            Event::Miss => {
                self.ended = Some(Terminal::Sky);
            },
            Event::Absorbed => {
                self.ended = Some(Terminal::Black);
            },
            Event::Scattered => {
                self.remaining = self.remaining - 1;
            },
        }
    }
}


/// The state machine follows the recursive definition: after any events, the
/// step that a path of `depth` segments calls for is the one its end gives.
pub proof fn replay_follows_path_end(depth: i32, events: Seq<Event>)
    ensures
        step_of(replay(PathState { remaining: depth, ended: None }, events)) == step_for(
            path_end(depth as int, events),
        ),
    decreases events.len(),
{
    let s = PathState { remaining: depth, ended: None };
    if events.len() > 0 && depth > 0 {
        let rest = events.drop_first();
        match events[0] {
            Event::Scattered => {
                replay_follows_path_end((depth - 1) as i32, rest);
            },
            _ => {
                lemma_replay_ended(after(s, events[0]), rest);
            },
        }
    }
}

/// Once a path has ended, further events change nothing.
proof fn lemma_replay_ended(s: PathState, events: Seq<Event>)
    requires
        s.ended.is_some(),
    ensures
        replay(s, events) == s,
    decreases events.len(),
{
}

/// Depth bounds the work: a path of `depth` segments has ended after at most
/// `depth` events, whatever they are.
pub proof fn path_ends_within_depth(depth: int, events: Seq<Event>)
    requires
        events.len() >= depth,
    ensures
        path_end(depth, events).is_some(),
    decreases events.len(),
{
    if depth > 0 && events.len() > 0 {
        path_ends_within_depth(depth - 1, events.drop_first());
    }
}

/// A path with no segment allowed is black, before anything is traced.
pub proof fn zero_depth_is_black(depth: i32)
    requires
        depth <= 0,
    ensures
        step_of(PathState { remaining: depth, ended: None }) == Step::Stop(Terminal::Black),
{
}

/// In an empty scene every sweep finds nothing, so a path with a segment to
/// trace misses at once and ends in the sky gradient.
pub proof fn empty_scene_ends_in_sky<H, R, W, F: Fn(&H, W) -> Option<(R, W)>>(
    depth: i32,
    end: W,
    probe: F,
    trace: Seq<Option<(R, W)>>,
)
    requires
        depth > 0,
        is_sweep(Seq::<H>::empty(), end, probe, trace),
    ensures
        last_hit(trace).is_none(),
        path_end(depth as int, seq![Event::Miss]) == Some(Terminal::Sky),
        step_of(replay(PathState { remaining: depth, ended: None }, seq![Event::Miss]))
            == Step::Stop(Terminal::Sky),
{
    replay_follows_path_end(depth, seq![Event::Miss]);
}

} // verus!
