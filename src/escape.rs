use vstd::prelude::*;

verus! {

/// How a point's orbit behaved within the iteration limit.
#[derive(Clone, Copy, Debug, PartialEq, Eq, Structural)]
pub enum IterationResult {
    /// The orbit left the radius-2 disc at this iteration (below the limit).
    Escaped(u32),
    /// The orbit stayed in the disc for every iteration up to the limit.
    Bounded,
}

/// The result for an orbit that stayed inside for `count` of at most
/// `limit` iterations.
pub open spec fn classify_spec(count: int, limit: int) -> IterationResult {
    if count < limit {
        IterationResult::Escaped(count as u32)
    } else {
        IterationResult::Bounded
    }
}

/// Classifies an orbit from the number of iterations it stayed inside.
pub fn classify(count: u32, limit: u32) -> (r: IterationResult)
    requires
        count <= limit,
    ensures
        r == classify_spec(count as int, limit as int),
        r matches IterationResult::Escaped(i) ==> i == count && count < limit,
        r is Bounded <==> count == limit,
{
    if count < limit {
        IterationResult::Escaped(count)
    } else {
        IterationResult::Bounded
    }
}

/// Whether every test of `tests` found the orbit inside the disc.
pub open spec fn all_inside(tests: Seq<bool>) -> bool {
    forall|i: int| 0 <= i < tests.len() ==> #[trigger] tests[i]
}

/// Number of leading tests that found the orbit inside the disc.
pub open spec fn inside_run(tests: Seq<bool>) -> nat
    decreases tests.len(),
{
    if all_inside(tests) {
        tests.len()
    } else {
        inside_run(tests.drop_last())
    }
}

/// The scalar kernel from iteration `i` on: `tests[k]` says whether the
/// orbit is still inside the disc at iteration `k`; the first iteration
/// below `limit` whose test fails is where it escaped.
pub open spec fn scalar_from(tests: Seq<bool>, i: int, limit: int) -> IterationResult
    decreases limit - i,
{
    if i >= limit {
        IterationResult::Bounded
    } else if !tests[i] {
        IterationResult::Escaped(i as u32)
    } else {
        scalar_from(tests, i + 1, limit)
    }
}

/// One lane of the vector kernel after one more test: the lane stays active
/// only while every test found it inside, and counts only while active.
pub open spec fn lane_step_spec(count: int, active: bool, inside: bool) -> (int, bool) {
    let still = active && inside;
    (if still { count + 1 } else { count }, still)
}

/// One lane of the vector kernel after the tests of `tests`, starting from
/// a count of zero and an active lane.
pub open spec fn lane_after(tests: Seq<bool>) -> (int, bool)
    decreases tests.len(),
{
    if tests.len() == 0 {
        (0, true)
    } else {
        let prev = lane_after(tests.drop_last());
        lane_step_spec(prev.0, prev.1, tests.last())
    }
}

/// A lane counts the leading tests that found it inside, and is active
/// exactly while all of them did.
pub proof fn lemma_lane_counts_inside_run(tests: Seq<bool>)
    ensures
        lane_after(tests) == (inside_run(tests) as int, all_inside(tests)),
    decreases tests.len(),
{
    if tests.len() > 0 {
        let prev = tests.drop_last();
        lemma_lane_counts_inside_run(prev);
        if all_inside(tests) {
            assert forall|i: int| 0 <= i < prev.len() implies #[trigger] prev[i] by {
                assert(tests[i]);
            }
            assert(tests[tests.len() - 1]);
        } else if all_inside(prev) {
            if tests.last() {
                assert forall|i: int| 0 <= i < tests.len() implies #[trigger] tests[i] by {
                    if i < prev.len() {
                        assert(prev[i]);
                    }
                }
            }
            assert(inside_run(prev) == prev.len());
        } else {
            let k = choose|k: int| 0 <= k < prev.len() && !prev[k];
            assert(!tests[k]);
        }
    }
}

/// Once a test has found the orbit outside, later tests change nothing:
/// the lane's count is frozen.
pub proof fn lemma_escaped_lane_frozen(tests: Seq<bool>, more: Seq<bool>)
    requires
        !all_inside(tests),
    ensures
        lane_after(tests + more) == lane_after(tests),
    decreases more.len(),
{
    if more.len() > 0 {
        assert((tests + more).drop_last() =~= tests + more.drop_last());
        lemma_escaped_lane_frozen(tests, more.drop_last());
        lemma_lane_counts_inside_run(tests);
    } else {
        assert(tests + more =~= tests);
    }
}

/// The scalar kernel from `i` on, when the first `i` tests found the orbit
/// inside.
proof fn lemma_scalar_from(tests: Seq<bool>, i: int, limit: int)
    requires
        0 <= i <= limit <= tests.len(),
        limit <= u32::MAX,
        all_inside(tests.take(i)),
    ensures
        scalar_from(tests, i, limit) == classify_spec(inside_run(tests.take(limit)) as int, limit),
    decreases limit - i,
{
    if i == limit {
        assert(inside_run(tests.take(limit)) == limit);
    } else if !tests[i] {
        lemma_run_at_first_failure(tests.take(limit), i);
    } else {
        assert forall|k: int| 0 <= k < i + 1 implies #[trigger] tests.take(i + 1)[k] by {
            if k < i {
                assert(tests.take(i)[k]);
            }
        }
        lemma_scalar_from(tests, i + 1, limit);
    }
}

/// The leading run ends at the first test that fails.
proof fn lemma_run_at_first_failure(tests: Seq<bool>, i: int)
    requires
        0 <= i < tests.len(),
        all_inside(tests.take(i)),
        !tests[i],
    ensures
        inside_run(tests) == i,
    decreases tests.len(),
{
    assert(!all_inside(tests)) by {
        assert(!tests[i]);
    }
    let prev = tests.drop_last();
    assert(inside_run(tests) == inside_run(prev));
    if i == tests.len() - 1 {
        assert(prev =~= tests.take(i));
        assert(all_inside(prev));
        assert(inside_run(prev) == prev.len());
    } else {
        assert(prev.take(i) =~= tests.take(i));
        assert(!prev[i]);
        lemma_run_at_first_failure(prev, i);
    }
}

/// The vector kernel classifies each lane as the scalar kernel classifies
/// its point: with the same escape tests and limit, the lane's count after
/// `limit` steps gives the scalar kernel's result.
pub proof fn lemma_lane_agrees_with_scalar(tests: Seq<bool>, limit: int)
    requires
        0 <= limit <= tests.len(),
        limit <= u32::MAX,
    ensures
        classify_spec(lane_after(tests.take(limit)).0, limit) == scalar_from(tests, 0, limit),
{
    lemma_lane_counts_inside_run(tests.take(limit));
    lemma_scalar_from(tests, 0, limit);
}

/// Number of points the vector kernel evaluates together.
pub const LANES: usize = 4;

/// The per-lane state of the vector kernel: iteration counts and the
/// "still active" mask.
pub struct LaneState {
    counts: [u32; 4],
    active: [bool; 4],
    steps: u32,
}

impl LaneState {
    pub closed spec fn counts(&self) -> Seq<u32> {
        self.counts@
    }

    pub closed spec fn active(&self) -> Seq<bool> {
        self.active@
    }

    /// Number of steps taken so far.
    pub closed spec fn steps(&self) -> nat {
        self.steps as nat
    }

    pub open spec fn wf(&self) -> bool {
        &&& self.counts().len() == LANES
        &&& self.active().len() == LANES
        &&& forall|k: int| 0 <= k < LANES ==> #[trigger] self.counts()[k] <= self.steps()
    }

    /// Four lanes, all active, none counted.
    pub fn new() -> (s: LaneState)
        ensures
            s.wf(),
            s.steps() == 0,
            forall|k: int| 0 <= k < LANES ==> #[trigger] s.counts()[k] == 0 && s.active()[k],
    {
        LaneState { counts: [0, 0, 0, 0], active: [true, true, true, true], steps: 0 }
    }

    /// One iteration: `inside[k]` says whether lane `k`'s orbit is still
    /// inside the disc. A lane stays active only while inside, and its count
    /// grows only while it is active.
    pub fn step(&mut self, inside: [bool; 4])
        requires
            old(self).wf(),
            old(self).steps() < u32::MAX,
        ensures
            final(self).wf(),
            final(self).steps() == old(self).steps() + 1,
            forall|k: int|
                0 <= k < LANES ==> (final(self).counts()[k] as int, #[trigger] final(self).active()[k])
                    == lane_step_spec(old(self).counts()[k] as int, old(self).active()[k], inside@[k]),
    {
        let a0 = self.active[0] && inside[0];
        let a1 = self.active[1] && inside[1];
        let a2 = self.active[2] && inside[2];
        let a3 = self.active[3] && inside[3];
        let c0 = if a0 { self.counts[0] + 1 } else { self.counts[0] };
        let c1 = if a1 { self.counts[1] + 1 } else { self.counts[1] };
        let c2 = if a2 { self.counts[2] + 1 } else { self.counts[2] };
        let c3 = if a3 { self.counts[3] + 1 } else { self.counts[3] };
        self.counts = [c0, c1, c2, c3];
        self.active = [a0, a1, a2, a3];
        self.steps = self.steps + 1;
    }

    /// Whether any lane is still active; once none is, further steps change
    /// nothing and the kernel may stop.
    pub fn any_active(&self) -> (r: bool)
        requires
            self.wf(),
        ensures
            r == exists|k: int| 0 <= k < LANES && #[trigger] self.active()[k],
    {
        let r = self.active[0] || self.active[1] || self.active[2] || self.active[3];
        assert(r ==> self.active()[0] || self.active()[1] || self.active()[2] || self.active()[3]);
        r
    }

    /// The count of lane `k`.
    pub fn count(&self, k: usize) -> (c: u32)
        requires
            self.wf(),
            k < LANES,
        ensures
            c == self.counts()[k as int],
    {
        self.counts[k]
    }

    /// The classification of lane `k` under the iteration limit `limit`.
    pub fn result(&self, k: usize, limit: u32) -> (r: IterationResult)
        requires
            self.wf(),
            k < LANES,
            self.steps() <= limit,
        ensures
            r == classify_spec(self.counts()[k as int] as int, limit as int),
    {
        classify(self.counts[k], limit)
    }
}

} // verus!
