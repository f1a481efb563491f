//! Bookkeeping for a list of nested circles kept in breadth-first order:
//! where each nesting level begins and ends, and which stretch of the list
//! is drawn next.
//!
//! Only the nesting level of each circle is kept here. Positions, radii and
//! colours stay with whoever draws.

use vstd::prelude::*;

verus! {

/// A stretch of the list: the circles from `start` up to, but not including,
/// `end`.
#[derive(Clone, Copy, Debug, PartialEq, Eq, Structural)]
pub struct Range {
    pub start: usize,
    pub end: usize,
}

/// Whether `runs` splits `levels` into its maximal stretches of equal level:
/// the stretches are not empty, follow one another from the first index to
/// the last, hold one level each, and neighbouring stretches differ in level.
pub open spec fn splits_by_level(levels: Seq<usize>, runs: Seq<(usize, usize)>) -> bool {
    &&& levels.len() == 0 ==> runs.len() == 0
    &&& levels.len() > 0 ==> runs.len() > 0 && runs[0].0 == 0 && runs.last().1 == levels.len()
    &&& forall|k: int| 0 <= k < runs.len() ==> (#[trigger] runs[k]).0 < runs[k].1 <= levels.len()
    &&& forall|k: int| 0 < k < runs.len() ==> (#[trigger] runs[k]).0 == runs[k - 1].1
    &&& forall|k: int, i: int|
        0 <= k < runs.len() && runs[k].0 <= i < runs[k].1 ==> #[trigger] levels[i] == levels[(
        #[trigger] runs[k]).0 as int]
    &&& forall|k: int|
        0 < k < runs.len() ==> levels[(#[trigger] runs[k]).0 - 1] != levels[runs[k].0 as int]
}

/// The stretch of a list of `len` circles that a render queue shows: the
/// queued range, cut off at the end of the list.
pub open spec fn shown(len: nat, queue: Option<Range>) -> (int, int) {
    match queue {
        None => (0, 0),
        Some(range) => if range.start <= range.end <= len {
            (range.start as int, range.end as int)
        } else {
            (range.start as int, len as int)
        },
    }
}

/// The render queue after `count` more circles were asked for: the range
/// that starts one past the end of the current one, or at the first circle
/// when there is none; nothing once that start lies beyond the list.
pub open spec fn queue_after(len: nat, queue: Option<Range>, count: usize) -> Option<Range> {
    let start = match queue {
        Some(range) => range.end + 1,
        None => 0,
    };
    if start < len {
        Some(Range { start: start as usize, end: (start + count) as usize })
    } else {
        None
    }
}

/// What the bookkeeping holds.
pub struct CirclesView {
    /// Nesting level of each circle, in list order.
    pub levels: Seq<usize>,
    pub render_queue: Option<Range>,
}

/// Levels and render queue of a list of nested circles.
#[derive(Debug)]
pub struct CirclesRecursive {
    levels: Vec<usize>,
    render_queue: Option<Range>,
}

impl View for CirclesRecursive {
    type V = CirclesView;

    closed spec fn view(&self) -> CirclesView {
        CirclesView { levels: self.levels@, render_queue: self.render_queue }
    }
}

impl CirclesRecursive {
    /// A queued range does not end before it starts, and ends below
    /// `usize::MAX`.
    #[verifier::type_invariant]
    spec fn queue_in_order(self) -> bool {
        self.render_queue matches Some(range) ==> range.start <= range.end < usize::MAX
    }

    /// Bookkeeping for circles of the given levels, with nothing queued for
    /// drawing.
    pub fn new(levels: Vec<usize>) -> (c: CirclesRecursive)
        ensures
            c@ == (CirclesView { levels: levels@, render_queue: None }),
    {
        CirclesRecursive { levels, render_queue: None }
    }

    /// Number of circles.
    pub fn len(&self) -> (n: usize)
        ensures
            n == self@.levels.len(),
    {
        self.levels.len()
    }

    /// The maximal stretches of circles of one level, as pairs of first
    /// index and end, in list order.
    pub fn partition_by_level(&self) -> (runs: Vec<(usize, usize)>)
        ensures
            splits_by_level(self@.levels, runs@),
    {
        let n = self.levels.len();
        let mut runs: Vec<(usize, usize)> = Vec::new();
        if n == 0 {
            return runs;
        }
        let ghost levels = self.levels@;
        let mut start: usize = 0;
        let mut i: usize = 1;
        while i < n
            invariant
                levels == self.levels@,
                n == levels.len(),
                start < i <= n,
                runs@.len() == 0 ==> start == 0,
                runs@.len() > 0 ==> runs@[0].0 == 0 && runs@.last().1 == start,
                forall|k: int| 0 <= k < runs@.len() ==> (#[trigger] runs@[k]).0 < runs@[k].1 <= start,
                forall|k: int| 0 < k < runs@.len() ==> (#[trigger] runs@[k]).0 == runs@[k - 1].1,
                forall|k: int, j: int|
                    0 <= k < runs@.len() && runs@[k].0 <= j < runs@[k].1 ==> #[trigger] levels[j]
                        == levels[(#[trigger] runs@[k]).0 as int],
                forall|k: int|
                    0 < k < runs@.len() ==> levels[(#[trigger] runs@[k]).0 - 1]
                        != levels[runs@[k].0 as int],
                start > 0 ==> levels[start - 1] != levels[start as int],
                forall|j: int| start <= j < i ==> levels[j] == levels[start as int],
            decreases n - i,
        {
            if self.levels[i] != self.levels[i - 1] {
                runs.push((start, i));
                start = i;
            }
            i += 1;
        }
        runs.push((start, n));
        runs
    }

    /// Replaces the circles by a new list and keeps the render queue.
    pub fn update(&mut self, levels: Vec<usize>)
        ensures
            final(self)@ == (CirclesView {
                levels: levels@,
                render_queue: old(self)@.render_queue,
            }),
    {
        proof {
            use_type_invariant(&*self);
        }
        self.levels = levels;
    }

    /// The render queue.
    pub fn render_queue(&self) -> (queue: Option<Range>)
        ensures
            queue == self@.render_queue,
    {
        self.render_queue
    }

    /// Turns the list around: the last circle becomes the first.
    pub fn reverse(&mut self)
        ensures
            final(self)@.levels == old(self)@.levels.reverse(),
            final(self)@.render_queue == old(self)@.render_queue,
    {
        proof {
            use_type_invariant(&*self);
        }
        let n = self.levels.len();
        let mut turned: Vec<usize> = Vec::new();
        let mut i: usize = n;
        while i > 0
            invariant
                i <= n,
                n == self.levels@.len(),
                turned@.len() == n - i,
                forall|k: int| 0 <= k < turned@.len() ==> turned@[k] == self.levels@[n - 1 - k],
            decreases i,
        {
            i -= 1;
            turned.push(self.levels[i]);
        }
        assert(turned@ =~= self.levels@.reverse());
        self.levels = turned;
    }

    /// Whether nothing is queued for drawing.
    pub fn is_que_empty(&self) -> (empty: bool)
        ensures
            empty == (self@.render_queue is None),
    {
        match self.render_queue {
            None => true,
            _ => false,
        }
    }

    /// Queues the next `count` circles for drawing.
    pub fn add_que(&mut self, count: usize)
        requires
            old(self)@.levels.len() + count <= usize::MAX,
        ensures
            final(self)@.levels == old(self)@.levels,
            final(self)@.render_queue == queue_after(
                old(self)@.levels.len(),
                old(self)@.render_queue,
                count,
            ),
    {
        proof {
            use_type_invariant(&*self);
        }
        let start = match &self.render_queue {
            Some(range) => range.end + 1,
            None => 0,
        };
        if start < self.levels.len() {
            self.render_queue = Some(Range { start, end: start + count });
        } else {
            self.render_queue = None;
        }
    }

    /// The stretch of the list to draw now, as first index and end. Both lie
    /// within the list; the stretch is empty when nothing is queued.
    ///
    /// A queued range has to start within the list. [`CirclesRecursive::add_que`]
    /// sees to that; [`CirclesRecursive::update`] with a shorter list may undo
    /// it.
    pub fn visible(&self) -> (r: (usize, usize))
        requires
            self@.render_queue matches Some(range) ==> range.start <= self@.levels.len(),
        ensures
            (r.0 as int, r.1 as int) == shown(self@.levels.len(), self@.render_queue),
            r.0 <= r.1 <= self@.levels.len(),
    {
        proof {
            use_type_invariant(self);
        }
        match self.render_queue {
            None => (0, 0),
            Some(range) => if range.end <= self.levels.len() {
                (range.start, range.end)
            } else {
                (range.start, self.levels.len())
            },
        }
    }
}

} // verus!
