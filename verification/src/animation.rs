//! The state machine behind the interactive smoothing loop: points are
//! captured while idle; once animation starts, every tick refines the
//! working polyline by one subdivision pass, and after a fixed number of
//! passes the polyline snaps back to the captured points and the cycle
//! restarts, until a reset clears everything.
//!
//! The timer and input plumbing that fires the events stays outside; this
//! is only the decision logic, from state and event to next state.

use vstd::prelude::*;
use crate::subdivision::{Point, chaikin_algo, chaikin_spec, sub_point_in_range, SUB_MAX};
use crate::subdivision::lemma_chaikin_preserves_box;

verus! {

/// How many refinement passes run before the polyline snaps back to the
/// captured points.
pub const MAX_STEPS: u32 = 7;

/// The animation state: the captured points, the working polyline being
/// refined, whether the animation is running, and how many passes have
/// run in the current cycle.
pub struct Animation {
    pub original_points: Vec<Point>,
    pub smooth_points: Vec<Point>,
    pub animating: bool,
    pub steps: u32,
}

impl Animation {
    /// Every held point is in the range the subdivision accepts, the pass
    /// counter never exceeds the cap, and animation only runs with at
    /// least two captured points.
    pub open spec fn wf(&self) -> bool {
        &&& forall|i: int| 0 <= i < self.original_points@.len() ==> sub_point_in_range(
            #[trigger] self.original_points@[i])
        &&& forall|i: int| 0 <= i < self.smooth_points@.len() ==> sub_point_in_range(
            #[trigger] self.smooth_points@[i])
        &&& self.steps <= MAX_STEPS
        &&& (self.animating ==> self.original_points@.len() >= 2)
    }

    /// The idle starting state: nothing captured, nothing running.
    pub fn new() -> (s: Self)
        ensures
            s.wf(),
            s.original_points@.len() == 0,
            s.smooth_points@.len() == 0,
            !s.animating,
            s.steps == 0,
    {
        Animation {
            original_points: Vec::new(),
            smooth_points: Vec::new(),
            animating: false,
            steps: 0,
        }
    }

    /// Captures one more point. While the animation runs, clicks are
    /// ignored.
    pub fn add_point(&mut self, p: Point)
        requires
            old(self).wf(),
            sub_point_in_range(p),
        ensures
            final(self).wf(),
            !old(self).animating ==> final(self).original_points@
                == old(self).original_points@.push(p),
            old(self).animating ==> final(self).original_points@ == old(self).original_points@,
            final(self).smooth_points@ == old(self).smooth_points@,
            final(self).animating == old(self).animating,
            final(self).steps == old(self).steps,
    {
        if !self.animating {
            self.original_points.push(p);
        }
    }

    /// Starts the animation: the working polyline takes the captured
    /// points. Nothing happens with fewer than two captured points, or
    /// when the animation already runs.
    pub fn start(&mut self)
        requires
            old(self).wf(),
        ensures
            final(self).wf(),
            old(self).animating || old(self).original_points@.len() < 2 ==> *final(self)
                == *old(self),
            !old(self).animating && old(self).original_points@.len() >= 2 ==> {
                &&& final(self).animating
                &&& final(self).smooth_points@ == old(self).original_points@
                &&& final(self).original_points@ == old(self).original_points@
                &&& final(self).steps == old(self).steps
            },
    {
        if !self.animating && self.original_points.len() >= 2 {
            self.animating = true;
            self.smooth_points = copy_points(&self.original_points);
        }
    }

    /// Clears everything and returns to the idle state.
    pub fn reset(&mut self)
        ensures
            final(self).wf(),
            final(self).original_points@.len() == 0,
            final(self).smooth_points@.len() == 0,
            !final(self).animating,
            final(self).steps == 0,
    {
        self.original_points = Vec::new();
        self.smooth_points = Vec::new();
        self.animating = false;
        self.steps = 0;
    }

    /// One animation tick. While the cap is not reached, the working
    /// polyline is refined by one subdivision pass; at the cap it snaps
    /// back to the captured points and the counter restarts. Idle states
    /// are untouched.
    pub fn tick(&mut self)
        requires
            old(self).wf(),
        ensures
            final(self).wf(),
            final(self).original_points@ == old(self).original_points@,
            final(self).animating == old(self).animating,
            !old(self).animating ==> *final(self) == *old(self),
            old(self).animating && old(self).steps < MAX_STEPS ==> {
                &&& final(self).smooth_points@ == chaikin_spec(old(self).smooth_points@)
                &&& final(self).steps == old(self).steps + 1
            },
            old(self).animating && old(self).steps == MAX_STEPS ==> {
                &&& final(self).smooth_points@ == old(self).original_points@
                &&& final(self).steps == 0
            },
    {
        if self.animating {
            if self.steps < MAX_STEPS {
                let refined = chaikin_algo(&self.smooth_points);
                proof {
                    lemma_chaikin_preserves_box(self.smooth_points@, -SUB_MAX as int,
                        SUB_MAX as int, -SUB_MAX as int, SUB_MAX as int);
                }
                self.smooth_points = refined;
                self.steps = self.steps + 1;
            } else {
                self.smooth_points = copy_points(&self.original_points);
                self.steps = 0;
            }
        }
    }
}

/// A fresh vector with the same points.
fn copy_points(points: &Vec<Point>) -> (r: Vec<Point>)
    ensures
        r@ == points@,
{
    let mut out: Vec<Point> = Vec::new();
    let n = points.len();
    let mut i: usize = 0;
    while i < n
        invariant
            0 <= i <= n,
            n == points@.len(),
            out@.len() == i,
            forall|j: int| 0 <= j < i ==> out@[j] == points@[j],
        decreases n - i,
    {
        out.push(points[i]);
        i = i + 1;
    }
    proof {
        assert(out@ =~= points@);
    }
    out
}

} // verus!
