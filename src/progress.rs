use vstd::prelude::*;

verus! {

/// What the render loop does next.
#[derive(Clone, Copy, Debug, PartialEq, Eq, Structural)]
pub enum Step {
    /// Render the sample pass with this index over every scanline.
    RenderSample(usize),
    /// Stop, and divide the accumulated image by this number of completed passes.
    Finish(usize),
}

/// The decisions of a progressive render: how many sample passes have completed,
/// whether a snapshot is being written, and whether the render was told to stop.
#[derive(Clone, Copy, Debug, PartialEq, Eq, Structural)]
pub struct RenderProgress {
    pub samples_target: usize,
    pub snapshot_every: usize,
    pub completed: usize,
    pub snapshot_in_flight: bool,
    pub stopped: bool,
}

impl RenderProgress {
    pub open spec fn well_formed(self) -> bool {
        &&& self.snapshot_every > 0
        &&& self.completed <= self.samples_target
        &&& (self.stopped ==> self.completed > 0)
    }

    pub open spec fn spec_next_step(self) -> Step {
        if !self.stopped && self.completed < self.samples_target {
            Step::RenderSample(self.completed)
        } else {
            Step::Finish(self.completed)
        }
    }

    /// A render of `samples_target` passes that saves a snapshot after every
    /// `snapshot_every`-th pass, starting with the first.
    pub fn new(samples_target: usize, snapshot_every: usize) -> (r: RenderProgress)
        requires
            snapshot_every > 0,
        ensures
            r.well_formed(),
            r == (RenderProgress {
                samples_target,
                snapshot_every,
                completed: 0,
                snapshot_in_flight: false,
                stopped: false,
            }),
    {
        RenderProgress { samples_target, snapshot_every, completed: 0, snapshot_in_flight: false, stopped: false }
    }

    /// The next pass to render, or, once all passes are done or a stop was asked for, the
    /// number of completed passes to average by.
    pub fn next_step(&self) -> (r: Step)
        ensures
            r == self.spec_next_step(),
    {
        if !self.stopped && self.completed < self.samples_target {
            Step::RenderSample(self.completed)
        } else {
            Step::Finish(self.completed)
        }
    }

    /// Records that the pass `completed` has been added to the image. `snapshot_done` says
    /// whether the snapshot in flight, if any, has been written; `stop_requested` whether
    /// the render was told to stop. Returns whether to start a snapshot now, averaged by
    /// the new number of completed passes: after every `snapshot_every`-th pass, starting
    /// with the first, unless a snapshot is still being written.
    pub fn sample_finished(&mut self, snapshot_done: bool, stop_requested: bool) -> (r: bool)
        requires
            old(self).well_formed(),
            old(self).spec_next_step() is RenderSample,
        ensures
            final(self).well_formed(),
            final(self).samples_target == old(self).samples_target,
            final(self).snapshot_every == old(self).snapshot_every,
            final(self).completed == old(self).completed + 1,
            final(self).stopped == stop_requested,
            r == (old(self).completed % old(self).snapshot_every == 0 && !(old(self).snapshot_in_flight
                && !snapshot_done)),
            final(self).snapshot_in_flight == (r || (old(self).snapshot_in_flight && !snapshot_done)),
    {
        let busy = self.snapshot_in_flight && !snapshot_done;
        let start = self.completed % self.snapshot_every == 0 && !busy;
        self.completed = self.completed + 1;
        self.snapshot_in_flight = start || busy;
        self.stopped = stop_requested;
        start
    }
}

/// Whatever the outcome of each pass, a render that follows the steps renders passes
/// 0, 1, 2, ... in order and finishes with the count of passes it completed, which is
/// at most the target, and at least one where the target is positive: the image is
/// averaged by exactly the number of passes added to it.
pub proof fn lemma_finish_counts_completed(p: RenderProgress)
    requires
        p.well_formed(),
        p.spec_next_step() is Finish,
        p.samples_target > 0,
    ensures
        p.spec_next_step() == Step::Finish(p.completed),
        1 <= p.completed <= p.samples_target,
{
}

} // verus!
