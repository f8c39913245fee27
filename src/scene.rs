use vstd::prelude::*;

verus! {

/// The search window after the probes recorded in `trace`: each hit found
/// narrows it to the bound that the hit reported, a miss leaves it as it was.
pub open spec fn window_after<R, W>(end: W, trace: Seq<Option<(R, W)>>) -> W
    decreases trace.len(),
{
    if trace.len() == 0 {
        end
    } else {
        match trace.last() {
            Some((_, w)) => w,
            None => window_after(end, trace.drop_last()),
        }
    }
}

/// The latest hit recorded in `trace`, if any.
pub open spec fn last_hit<R, W>(trace: Seq<Option<(R, W)>>) -> Option<R>
    decreases trace.len(),
{
    if trace.len() == 0 {
        None
    } else {
        match trace.last() {
            Some((r, _)) => Some(r),
            None => last_hit(trace.drop_last()),
        }
    }
}

/// `trace` is what `probe` can report, object after object in order, when each
/// object is tested against the window left by the hits before it.
pub open spec fn is_sweep<H, R, W, F: Fn(&H, W) -> Option<(R, W)>>(
    objects: Seq<H>,
    end: W,
    probe: F,
    trace: Seq<Option<(R, W)>>,
) -> bool {
    &&& trace.len() == objects.len()
    &&& forall|j: int|
        0 <= j < trace.len() ==> probe.ensures(
            (&objects[j], window_after(end, trace.take(j))),
            #[trigger] trace[j],
        )
}

/// `le` orders the window bounds totally (ties allowed).
pub open spec fn total_preorder<W>(le: spec_fn(W, W) -> bool) -> bool {
    &&& forall|a: W| #[trigger] le(a, a)
    &&& forall|a: W, b: W, c: W| #[trigger] le(a, b) && #[trigger] le(b, c) ==> le(a, c)
    &&& forall|a: W, b: W| #[trigger] le(a, b) || le(b, a)
}

/// `h` has a hit, at distance `dist(h)`, that lies within the window bounded by `w`.
pub open spec fn reaches<H, W>(dist: spec_fn(H) -> Option<W>, le: spec_fn(W, W) -> bool, h: H, w: W) -> bool {
    match dist(h) {
        Some(t) => le(t, w),
        None => false,
    }
}

/// `probe` reports the hit of a primitive exactly when its distance lies within
/// the window, and narrows the window to that distance.
pub open spec fn probes_distance<H, R, W, F: Fn(&H, W) -> Option<(R, W)>>(
    probe: F,
    dist: spec_fn(H) -> Option<W>,
    le: spec_fn(W, W) -> bool,
) -> bool {
    forall|h: H, w: W, o: Option<(R, W)>|
        #[trigger] probe.ensures((&h, w), o) ==> if reaches(dist, le, h, w) {
            o.is_some() && o.unwrap().1 == dist(h).unwrap()
        } else {
            o.is_none()
        }
}

/// The sweep finds the nearest hit, whatever the order of the primitives: it
/// reports a hit exactly when some primitive is hit within the window; the
/// window then closes at a distance no greater than that of any primitive hit
/// within it, and the record returned is the one of a primitive hit at that
/// distance. With no hit, the window stays as it was.
pub proof fn sweep_finds_nearest<H, R, W, F: Fn(&H, W) -> Option<(R, W)>>(
    objects: Seq<H>,
    end: W,
    probe: F,
    trace: Seq<Option<(R, W)>>,
    dist: spec_fn(H) -> Option<W>,
    le: spec_fn(W, W) -> bool,
)
    requires
        total_preorder(le),
        probes_distance(probe, dist, le),
        is_sweep(objects, end, probe, trace),
    ensures
        last_hit(trace).is_some() <==> exists|i: int|
            0 <= i < objects.len() && #[trigger] reaches(dist, le, objects[i], end),
        last_hit(trace).is_none() ==> window_after(end, trace) == end,
        le(window_after(end, trace), end),
        forall|i: int|
            0 <= i < objects.len() && #[trigger] reaches(dist, le, objects[i], end) ==> le(
                window_after(end, trace),
                dist(objects[i]).unwrap(),
            ),
        last_hit(trace).is_some() ==> exists|j: int|
            0 <= j < objects.len() && dist(objects[j]) == Some(window_after(end, trace))
                && #[trigger] trace[j] == Some((last_hit(trace).unwrap(), window_after(end, trace))),
    decreases trace.len(),
{
    let n = trace.len();
    if n == 0 {
        return;
    }
    let prev = trace.drop_last();
    let objs = objects.drop_last();
    assert forall|j: int| 0 <= j < prev.len() implies probe.ensures(
        (&objs[j], window_after(end, prev.take(j))),
        #[trigger] prev[j],
    ) by {
        assert(prev.take(j) =~= trace.take(j));
        assert(trace[j] == prev[j]);
    }
    sweep_finds_nearest(objs, end, probe, prev, dist, le);
    let w_prev = window_after(end, prev);
    let h = objects[n - 1];
    assert(trace.take(n - 1) =~= prev);
    assert(probe.ensures((&h, w_prev), trace[n - 1]));
    let w = window_after(end, trace);
    if reaches(dist, le, h, w_prev) {
        let t = dist(h).unwrap();
        assert(w == t);
        assert(le(t, end));
        assert forall|i: int|
            0 <= i < objects.len() && #[trigger] reaches(dist, le, objects[i], end) implies le(
            w,
            dist(objects[i]).unwrap(),
        ) by {
            if i < n - 1 {
                assert(objs[i] == objects[i]);
                assert(le(w_prev, dist(objects[i]).unwrap()));
            }
        }
        assert(trace[n - 1] == Some((last_hit(trace).unwrap(), w)));
    } else {
        assert(trace[n - 1].is_none());
        assert(w == w_prev);
        assert(last_hit(trace) == last_hit(prev));
        if reaches(dist, le, h, end) {
            assert(last_hit(prev).is_some());
            assert(le(w_prev, dist(h).unwrap()));
        }
        assert forall|i: int|
            0 <= i < objects.len() && #[trigger] reaches(dist, le, objects[i], end) implies le(
            w,
            dist(objects[i]).unwrap(),
        ) by {
            if i < n - 1 {
                assert(objs[i] == objects[i]);
            }
        }
        if last_hit(trace).is_some() {
            let j = choose|j: int|
                0 <= j < objs.len() && dist(objs[j]) == Some(w_prev) && #[trigger] prev[j] == Some(
                    (last_hit(prev).unwrap(), w_prev),
                );
            assert(trace[j] == prev[j]);
            assert(objects[j] == objs[j]);
        }
        if exists|i: int| 0 <= i < objects.len() && #[trigger] reaches(dist, le, objects[i], end) {
            let i = choose|i: int|
                0 <= i < objects.len() && #[trigger] reaches(dist, le, objects[i], end);
            if i < n - 1 {
                assert(objs[i] == objects[i]);
                assert(reaches(dist, le, objs[i], end));
            }
        }
    }
    if exists|i: int| 0 <= i < objs.len() && #[trigger] reaches(dist, le, objs[i], end) {
        let i = choose|i: int| 0 <= i < objs.len() && #[trigger] reaches(dist, le, objs[i], end);
        assert(objects[i] == objs[i]);
    }
}

/// An ordered collection of primitives, scanned linearly for the nearest hit.
pub struct HittableList<H> {
    objects: Vec<H>,
}

impl<H> View for HittableList<H> {
    type V = Seq<H>;

    closed spec fn view(&self) -> Seq<H> {
        self.objects@
    }
}

impl<H> HittableList<H> {
    /// An empty scene.
    pub fn new() -> (r: Self)
        ensures
            r@ == Seq::<H>::empty(),
    {
        HittableList { objects: Vec::new() }
    }

    /// Adds a primitive after those already held.
    pub fn push(&mut self, item: H)
        ensures
            final(self)@ == old(self)@.push(item),
    {
        self.objects.push(item);
    }

    /// The number of primitives.
    pub fn len(&self) -> (r: usize)
        ensures
            r == self@.len(),
    {
        self.objects.len()
    }

    /// Tests every primitive in order with `probe`, handing it the current
    /// upper bound of the search window, which starts at `end`. A primitive hit
    /// reports its record and the bound that it narrows the window to; later
    /// primitives are tested only against that narrower window. Returns the
    /// record of the last hit, which is the nearest one, or `None` when no
    /// primitive was hit.
    pub fn hit<R, W: Copy, F: Fn(&H, W) -> Option<(R, W)>>(
        &self,
        end: W,
        probe: F,
    ) -> (r: Option<R>)
        requires
            forall|h: &H, w: W| probe.requires((h, w)),
        ensures
            exists|trace: Seq<Option<(R, W)>>|
                is_sweep(self@, end, probe, trace) && r == last_hit(trace),
    {
        let mut closest: W = end;
        let mut found: Option<R> = None;
        let ghost mut trace: Seq<Option<(R, W)>> = Seq::empty();
        let mut i: usize = 0;
        while i < self.objects.len()
            invariant
                i <= self@.len(),
                is_sweep(self@.take(i as int), end, probe, trace),
                closest == window_after(end, trace),
                found == last_hit(trace),
                forall|h: &H, w: W| probe.requires((h, w)),
            decreases self@.len() - i,
        {
            let outcome = probe(&self.objects[i], closest);
            proof {
                let prev = trace;
                trace = trace.push(outcome);
                assert(trace.drop_last() =~= prev);
                assert(trace.take(i as int) =~= prev);
                assert forall|j: int| 0 <= j < i implies trace.take(j) =~= prev.take(j) by {}
                assert(self@.take(i + 1).drop_last() =~= self@.take(i as int));
            }
            match outcome {
                Some((rec, bound)) => {
                    found = Some(rec);
                    closest = bound;
                },
                None => {},
            }
            i += 1;
        }
        proof {
            assert(self@.take(i as int) =~= self@);
        }
        found
    }
}

} // verus!
