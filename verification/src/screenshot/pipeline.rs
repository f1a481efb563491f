//! The two sides put together, and what holds of the whole.
//!
//! [`Pipeline`] is a model of a capturing side and a saving side that run at
//! their own pace: requests wait in flight until the worker takes them, and
//! a buffer is back in the pool as soon as its job was handed out.
//! [`Ledger`] says, without queue or pool, which files a sequence of calls
//! should leave behind. The lemmas relate the two for every order in which
//! the two sides may take their turns.

use crate::screenshot::buffer::BufferView;
use crate::screenshot::naming::{dist_dir_of, file_name_of, joined};
use crate::screenshot::shots::{ShotsView, POOL_SIZE};
use crate::screenshot::worker::{MsgView, WorkerState, WorkerView, WRITE_BEHIND_DEPTH};
use crate::screenshot::writer::{JobView, WriterView};
use vstd::prelude::*;

verus! {

/// One turn of either side.
pub enum Step {
    /// The capturing side asks for one more screenshot.
    Take,
    /// The capturing side rendered a frame, with these surface dimensions
    /// and pixel bytes.
    Capture { dims: (usize, usize), frame: Seq<u8> },
    /// The capturing side moves output to this directory below
    /// `{basedir}/dist`.
    OutputDir(Seq<char>),
    /// The saving side takes the oldest request in flight.
    Serve,
}

/// The frames of a sequence of jobs, in order.
pub open spec fn buffers_of(jobs: Seq<JobView>) -> Seq<BufferView> {
    jobs.map_values(|j: JobView| j.buffer)
}

/// Number of captured frames among `msgs`.
pub open spec fn frames_in(msgs: Seq<MsgView>) -> nat
    decreases msgs.len(),
{
    if msgs.len() == 0 {
        0
    } else if msgs.last() is Buffer {
        frames_in(msgs.drop_last()) + 1
    } else {
        frames_in(msgs.drop_last())
    }
}

/// The captured frames among `msgs`, in order.
pub open spec fn frames_of(msgs: Seq<MsgView>) -> Seq<BufferView>
    decreases msgs.len(),
{
    if msgs.len() == 0 {
        Seq::empty()
    } else {
        match msgs.last() {
            MsgView::Buffer(b) => frames_of(msgs.drop_last()).push(b),
            _ => frames_of(msgs.drop_last()),
        }
    }
}

/// Both sides, the requests in flight between them, oldest first, and the
/// files written so far.
pub struct Pipeline {
    pub shots: ShotsView,
    pub requests: Seq<MsgView>,
    pub worker: WorkerView,
    pub written: Seq<JobView>,
}

impl Pipeline {
    /// The pipeline right after set-up: the worker runs, writes to
    /// `{basedir}/dist` and holds nothing back, and nothing is in flight.
    pub open spec fn start(shots: ShotsView) -> Pipeline {
        Pipeline {
            shots,
            requests: Seq::empty(),
            worker: WorkerView::start(WriterView::fresh(dist_dir_of(shots.basedir))),
            written: Seq::empty(),
        }
    }

    /// The pipeline after the capturing side sent `sent`, if anything.
    pub open spec fn send(self, shots: ShotsView, sent: Option<MsgView>) -> Pipeline {
        Pipeline {
            shots,
            requests: match sent {
                Some(msg) => self.requests.push(msg),
                None => self.requests,
            },
            worker: self.worker,
            written: self.written,
        }
    }

    /// The pipeline after the worker went through `msgs`, its jobs were
    /// written and their buffers came back; `rest` stays in flight.
    pub open spec fn served(self, msgs: Seq<MsgView>, rest: Seq<MsgView>) -> Pipeline {
        let (worker, jobs) = self.worker.run(msgs);
        Pipeline {
            shots: ShotsView {
                num_shots: self.shots.num_shots,
                idle_frames: self.shots.idle_frames,
                pool: self.shots.pool + buffers_of(jobs),
                basedir: self.shots.basedir,
            },
            requests: rest,
            worker,
            written: self.written + jobs,
        }
    }

    /// The pipeline after the worker took the oldest request in flight.
    pub open spec fn serve(self) -> Pipeline {
        if self.requests.len() == 0 {
            self
        } else {
            self.served(seq![self.requests.first()], self.requests.drop_first())
        }
    }

    /// The pipeline after the worker took every request in flight.
    pub open spec fn catch_up(self) -> Pipeline {
        self.served(self.requests, Seq::empty())
    }

    /// Whether the capturing side has to wait: a screenshot is outstanding
    /// and no buffer is free.
    pub open spec fn waits(self) -> bool {
        self.shots.num_shots > 0 && self.shots.pool.len() == 0
    }

    /// The pipeline after one turn.
    pub open spec fn step(self, step: Step) -> Pipeline {
        match step {
            Step::Take => self.send(self.shots.take(), None),
            Step::Capture { dims, frame } => {
                let (shots, sent) = self.shots.capture(dims, frame);
                self.send(shots, sent)
            },
            Step::OutputDir(subdir) => self.send(
                self.shots,
                Some(MsgView::ChangeDir(self.shots.subdir_path(subdir))),
            ),
            Step::Serve => self.serve(),
        }
    }

    /// The pipeline after a sequence of turns.
    pub open spec fn run(self, steps: Seq<Step>) -> Pipeline
        decreases steps.len(),
    {
        if steps.len() == 0 {
            self
        } else {
            self.run(steps.drop_last()).step(steps.last())
        }
    }

    /// Whether the capturing side never has to capture while it waits for a
    /// buffer: each `Capture` among `steps` comes at a moment when no
    /// screenshot is outstanding or a buffer is free.
    pub open spec fn unhindered(self, steps: Seq<Step>) -> bool
        decreases steps.len(),
    {
        if steps.len() == 0 {
            true
        } else {
            &&& self.unhindered(steps.drop_last())
            &&& steps.last() is Capture ==> !self.run(steps.drop_last()).waits()
        }
    }

    /// The pipeline after the final flush: `Kill` was sent, the worker took
    /// everything in flight, its last jobs were written and it has ended.
    pub open spec fn flush(self) -> Pipeline {
        let p = self.send(self.shots, Some(MsgView::Kill)).catch_up();
        Pipeline {
            shots: p.shots,
            requests: p.requests,
            worker: p.worker.finish(),
            written: p.written,
        }
    }

    /// The worker runs and holds back no more than [`WRITE_BEHIND_DEPTH`]
    /// frames, no `Kill` is in flight, and every buffer is either free, in
    /// flight or held back by the worker.
    pub open spec fn balanced(self) -> bool {
        &&& self.worker.state == WorkerState::Running
        &&& self.worker.queue.len() <= WRITE_BEHIND_DEPTH
        &&& forall|i: int| 0 <= i < self.requests.len() ==> !(#[trigger] self.requests[i] is Kill)
        &&& self.shots.pool.len() + frames_in(self.requests) + self.worker.queue.len()
            == POOL_SIZE
    }
}

/// The files that a sequence of turns should leave behind, told without
/// queue or pool: every frame that finds a screenshot outstanding becomes the
/// next file of the directory that is current at that moment.
pub struct Ledger {
    pub basedir: Seq<char>,
    pub writer: WriterView,
    /// Screenshots asked for and not yet captured.
    pub pending: nat,
    pub files: Seq<JobView>,
}

impl Ledger {
    pub open spec fn start(shots: ShotsView) -> Ledger {
        Ledger {
            basedir: shots.basedir,
            writer: WriterView::fresh(dist_dir_of(shots.basedir)),
            pending: shots.num_shots,
            files: Seq::empty(),
        }
    }

    pub open spec fn step(self, step: Step) -> Ledger {
        match step {
            Step::Take => Ledger {
                basedir: self.basedir,
                writer: self.writer,
                pending: self.pending + 1,
                files: self.files,
            },
            Step::Capture { dims, frame } => {
                if self.pending > 0 {
                    Ledger {
                        basedir: self.basedir,
                        writer: self.writer.advance(1),
                        pending: (self.pending - 1) as nat,
                        files: self.files.push(
                            JobView {
                                path: self.writer.path_at(0),
                                buffer: BufferView { dims, pixels: frame },
                            },
                        ),
                    }
                } else {
                    self
                }
            },
            Step::OutputDir(subdir) => Ledger {
                basedir: self.basedir,
                writer: WriterView::fresh(joined(dist_dir_of(self.basedir), subdir)),
                pending: self.pending,
                files: self.files,
            },
            Step::Serve => self,
        }
    }

    pub open spec fn run(self, steps: Seq<Step>) -> Ledger
        decreases steps.len(),
    {
        if steps.len() == 0 {
            self
        } else {
            self.run(steps.drop_last()).step(steps.last())
        }
    }
}

/// Number of screenshots outstanding after `steps`, when `pending` were
/// outstanding before.
pub open spec fn pending_after(pending: nat, steps: Seq<Step>) -> nat
    decreases steps.len(),
{
    if steps.len() == 0 {
        pending
    } else {
        let before = pending_after(pending, steps.drop_last());
        match steps.last() {
            Step::Take => before + 1,
            Step::Capture { .. } => if before > 0 {
                (before - 1) as nat
            } else {
                0
            },
            _ => before,
        }
    }
}

/// Number of `Capture` turns in `steps` that found a screenshot outstanding.
pub open spec fn captures_while_pending(pending: nat, steps: Seq<Step>) -> nat
    decreases steps.len(),
{
    if steps.len() == 0 {
        0
    } else {
        let earlier = captures_while_pending(pending, steps.drop_last());
        if steps.last() is Capture && pending_after(pending, steps.drop_last()) > 0 {
            earlier + 1
        } else {
            earlier
        }
    }
}

/// Running a worker over `msgs` is taking the first request and then running
/// over the rest.
proof fn lemma_run_from_first(w: WorkerView, msgs: Seq<MsgView>)
    requires
        msgs.len() > 0,
    ensures
        ({
            let (w1, j1) = w.handle(msgs.first());
            let (w2, j2) = w1.run(msgs.drop_first());
            w.run(msgs) == (w2, j1 + j2)
        }),
    decreases msgs.len(),
{
    let (w1, j1) = w.handle(msgs.first());
    if msgs.len() == 1 {
        assert(msgs.drop_last() =~= Seq::<MsgView>::empty());
        assert(msgs.drop_first() =~= Seq::<MsgView>::empty());
        assert(msgs.last() == msgs.first());
        assert(w.run(msgs.drop_last()) == (w, Seq::<JobView>::empty()));
        assert(Seq::<JobView>::empty() + j1 =~= j1 + Seq::<JobView>::empty());
    } else {
        let front = msgs.drop_last();
        lemma_run_from_first(w, front);
        assert(front.first() == msgs.first());
        assert(front.drop_first() =~= msgs.drop_first().drop_last());
        assert(msgs.drop_first().last() == msgs.last());
        let (wa, ja) = w1.run(front.drop_first());
        let (wb, jb) = wa.handle(msgs.last());
        assert(w1.run(msgs.drop_first()) == (wb, ja + jb));
        assert(w.run(front) == (wa, j1 + ja));
        assert((j1 + ja) + jb =~= j1 + (ja + jb));
    }
}

/// Running a worker over a single request is taking that request.
proof fn lemma_run_one(w: WorkerView, msg: MsgView)
    ensures
        w.run(seq![msg]) == w.handle(msg),
{
    let one = seq![msg];
    assert(one.drop_last() =~= Seq::<MsgView>::empty());
    assert(one.last() == msg);
    assert(w.run(one.drop_last()) == (w, Seq::<JobView>::empty()));
    assert(Seq::<JobView>::empty() + w.handle(msg).1 =~= w.handle(msg).1);
}

proof fn lemma_frames_from_first(msgs: Seq<MsgView>)
    requires
        msgs.len() > 0,
    ensures
        frames_in(msgs) == frames_in(msgs.drop_first()) + if msgs.first() is Buffer {
            1nat
        } else {
            0nat
        },
    decreases msgs.len(),
{
    if msgs.len() == 1 {
        assert(msgs.drop_last() =~= Seq::<MsgView>::empty());
        assert(msgs.drop_first() =~= Seq::<MsgView>::empty());
        assert(msgs.last() == msgs.first());
    } else {
        let front = msgs.drop_last();
        lemma_frames_from_first(front);
        assert(front.first() == msgs.first());
        assert(front.drop_first() =~= msgs.drop_first().drop_last());
        assert(msgs.drop_first().last() == msgs.last());
    }
}

/// A running worker with at most [`WRITE_BEHIND_DEPTH`] frames held back
/// keeps running, within that depth, over requests without a `Kill`; and no
/// frame is lost: each is written or still held back.
proof fn lemma_run_keeps_frames(w: WorkerView, msgs: Seq<MsgView>)
    requires
        w.state == WorkerState::Running,
        w.queue.len() <= WRITE_BEHIND_DEPTH,
        forall|i: int| 0 <= i < msgs.len() ==> !(#[trigger] msgs[i] is Kill),
    ensures
        w.run(msgs).0.state == WorkerState::Running,
        w.run(msgs).0.queue.len() <= WRITE_BEHIND_DEPTH,
        w.run(msgs).1.len() + w.run(msgs).0.queue.len() == w.queue.len() + frames_in(msgs),
    decreases msgs.len(),
{
    if msgs.len() > 0 {
        lemma_run_keeps_frames(w, msgs.drop_last());
    }
}

/// What ties a pipeline to the ledger of the same turns: once the worker has
/// caught up, the files written and the frames held back make up the
/// ledger's files.
spec fn agrees(p: Pipeline, l: Ledger) -> bool {
    let (w, jobs) = p.worker.run(p.requests);
    &&& p.balanced()
    &&& p.shots.num_shots == l.pending
    &&& p.shots.basedir == l.basedir
    &&& w.state == WorkerState::Running
    &&& w.queue.len() <= WRITE_BEHIND_DEPTH
    &&& w.writer.output_dir == l.writer.output_dir
    &&& w.writer.num_images + w.queue.len() == l.writer.num_images
    &&& p.written + jobs + w.writer.jobs(w.queue) == l.files
}

/// Sending one more request, as far as the caught-up worker is concerned.
proof fn lemma_send_agrees(p: Pipeline, l: Ledger, shots: ShotsView, msg: MsgView)
    requires
        agrees(p, l),
        !(msg is Kill),
    ensures
        ({
            let (w, jobs) = p.worker.run(p.requests);
            let (w2, more) = w.handle(msg);
            let q = p.send(shots, Some(msg));
            &&& q.worker.run(q.requests) == (w2, jobs + more)
            &&& frames_in(q.requests) == frames_in(p.requests) + if msg is Buffer {
                1nat
            } else {
                0nat
            }
            &&& forall|i: int| 0 <= i < q.requests.len() ==> !(#[trigger] q.requests[i] is Kill)
        }),
{
    let q = p.send(shots, Some(msg));
    assert(q.requests.drop_last() =~= p.requests);
    assert(q.requests.last() == msg);
}

proof fn lemma_step_agrees(p: Pipeline, l: Ledger, step: Step)
    requires
        agrees(p, l),
        step is Capture ==> !p.waits(),
    ensures
        agrees(p.step(step), l.step(step)),
{
    let (w, jobs) = p.worker.run(p.requests);
    let wr = w.writer;
    let q = w.queue;
    let r = p.step(step);
    match step {
        Step::Take => {},
        Step::Capture { dims, frame } => {
            let (shots, sent) = p.shots.capture(dims, frame);
            if p.shots.will_capture() {
                let b = BufferView { dims, pixels: frame };
                let msg = MsgView::Buffer(b);
                lemma_send_agrees(p, l, shots, msg);
                let job = JobView { path: l.writer.path_at(0), buffer: b };
                let full = q.push(b);
                assert(wr.path_at(q.len() as int) == l.writer.path_at(0));
                assert(wr.jobs(full) =~= wr.jobs(q).push(job));
                let (w2, more) = w.handle(msg);
                if full.len() > WRITE_BEHIND_DEPTH {
                    assert(wr.jobs(full) =~= more + wr.advance(1).jobs(full.drop_first()));
                    assert(p.written + (jobs + more) + w2.writer.jobs(w2.queue) =~= (p.written
                        + jobs + wr.jobs(q)).push(job));
                } else {
                    assert(p.written + (jobs + more) + w2.writer.jobs(w2.queue) =~= (p.written
                        + jobs + wr.jobs(q)).push(job));
                }
                assert(r.written + (jobs + more) =~= p.written + (jobs + more));
            } else if sent is Some {
                lemma_send_agrees(p, l, shots, MsgView::Flush);
                let (w2, more) = w.handle(MsgView::Flush);
                assert(w2.writer.jobs(w2.queue) =~= Seq::<JobView>::empty());
                assert(p.written + (jobs + more) + w2.writer.jobs(w2.queue) =~= p.written + jobs
                    + wr.jobs(q));
            }
        },
        Step::OutputDir(subdir) => {
            let msg = MsgView::ChangeDir(p.shots.subdir_path(subdir));
            lemma_send_agrees(p, l, p.shots, msg);
            let (w2, more) = w.handle(msg);
            assert(w2.writer.jobs(w2.queue) =~= Seq::<JobView>::empty());
            assert(p.written + (jobs + more) + w2.writer.jobs(w2.queue) =~= p.written + jobs
                + wr.jobs(q));
        },
        Step::Serve => {
            if p.requests.len() > 0 {
                let head = p.requests.first();
                let rest = p.requests.drop_first();
                lemma_run_from_first(p.worker, p.requests);
                lemma_frames_from_first(p.requests);
                lemma_run_one(p.worker, head);
                let (w1, j1) = p.worker.handle(head);
                let (w2, j2) = w1.run(rest);
                assert(!(p.requests[0] is Kill));
                assert forall|i: int| 0 <= i < rest.len() implies !(#[trigger] rest[i] is Kill) by {
                    assert(rest[i] == p.requests[i + 1]);
                }
                assert(buffers_of(j1).len() == j1.len());
                assert((p.written + j1) + j2 =~= p.written + (j1 + j2));
            }
        },
    }
}

proof fn lemma_run_agrees(shots: ShotsView, steps: Seq<Step>)
    requires
        shots.pool.len() == POOL_SIZE,
        Pipeline::start(shots).unhindered(steps),
    ensures
        agrees(Pipeline::start(shots).run(steps), Ledger::start(shots).run(steps)),
    decreases steps.len(),
{
    let p = Pipeline::start(shots);
    let l = Ledger::start(shots);
    if steps.len() == 0 {
        assert(p.worker.writer.jobs(p.worker.queue) =~= Seq::<JobView>::empty());
        assert(p.written + Seq::<JobView>::empty() + p.worker.writer.jobs(p.worker.queue)
            =~= l.files);
    } else {
        lemma_run_agrees(shots, steps.drop_last());
        lemma_step_agrees(p.run(steps.drop_last()), l.run(steps.drop_last()), steps.last());
    }
}

proof fn lemma_ledger_counts(shots: ShotsView, steps: Seq<Step>)
    ensures
        Ledger::start(shots).run(steps).basedir == shots.basedir,
        Ledger::start(shots).run(steps).pending == pending_after(shots.num_shots, steps),
        Ledger::start(shots).run(steps).files.len() == captures_while_pending(
            shots.num_shots,
            steps,
        ),
    decreases steps.len(),
{
    if steps.len() > 0 {
        lemma_ledger_counts(shots, steps.drop_last());
    }
}

proof fn lemma_step_balanced(p: Pipeline, step: Step)
    requires
        p.balanced(),
    ensures
        p.step(step).balanced(),
{
    match step {
        Step::Take => {},
        Step::Capture { dims, frame } => {
            let (shots, sent) = p.shots.capture(dims, frame);
            let r = p.send(shots, sent);
            if sent is Some {
                assert(r.requests.drop_last() =~= p.requests);
            }
        },
        Step::OutputDir(subdir) => {
            assert(p.step(step).requests.drop_last() =~= p.requests);
        },
        Step::Serve => {
            if p.requests.len() > 0 {
                let head = p.requests.first();
                let rest = p.requests.drop_first();
                lemma_frames_from_first(p.requests);
                lemma_run_one(p.worker, head);
                let (w1, j1) = p.worker.handle(head);
                assert(!(p.requests[0] is Kill));
                assert forall|i: int| 0 <= i < rest.len() implies !(#[trigger] rest[i] is Kill) by {
                    assert(rest[i] == p.requests[i + 1]);
                }
                assert(buffers_of(j1).len() == j1.len());
            }
        },
    }
}

/// Three buffers circulate: whatever turns the two sides take, on a pipeline
/// that started with a full pool the free buffers, the frames in flight and
/// the frames held back by the worker add up to [`POOL_SIZE`], and the worker
/// holds back at most [`WRITE_BEHIND_DEPTH`] of them.
pub proof fn lemma_buffers_circulate(shots: ShotsView, steps: Seq<Step>)
    requires
        shots.pool.len() == POOL_SIZE,
    ensures
        Pipeline::start(shots).run(steps).balanced(),
    decreases steps.len(),
{
    if steps.len() == 0 {
        assert(frames_in(Seq::<MsgView>::empty()) == 0);
    } else {
        lemma_buffers_circulate(shots, steps.drop_last());
        lemma_step_balanced(Pipeline::start(shots).run(steps.drop_last()), steps.last());
    }
}

/// Waiting for a buffer always ends: once the worker has taken every request
/// in flight, at least one buffer is free.
pub proof fn lemma_waiting_ends(p: Pipeline)
    requires
        p.balanced(),
    ensures
        p.catch_up().balanced(),
        p.catch_up().shots.pool.len() >= 1,
{
    lemma_run_keeps_frames(p.worker, p.requests);
    let jobs = p.worker.run(p.requests).1;
    assert(buffers_of(jobs).len() == jobs.len());
    assert(frames_in(Seq::<MsgView>::empty()) == 0);
}

/// Write-behind loses and reorders nothing: after any turns in which the
/// capturing side was never hindered, and the final flush, the files written
/// are those of the ledger, in the same order, with the same paths and the
/// same frames.
pub proof fn lemma_flush_writes_the_ledger(shots: ShotsView, steps: Seq<Step>)
    requires
        shots.pool.len() == POOL_SIZE,
        Pipeline::start(shots).unhindered(steps),
    ensures
        Pipeline::start(shots).run(steps).flush().written == Ledger::start(shots).run(steps).files,
{
    lemma_run_agrees(shots, steps);
    let p = Pipeline::start(shots).run(steps);
    let (w, jobs) = p.worker.run(p.requests);
    let q = p.send(p.shots, Some(MsgView::Kill));
    assert(q.requests.drop_last() =~= p.requests);
    assert(q.requests.last() == MsgView::Kill);
    let (w2, more) = w.handle(MsgView::Kill);
    assert(q.worker.run(q.requests) == (w2, jobs + more));
    assert(p.written + (jobs + more) =~= p.written + jobs + w.writer.jobs(w.queue));
}

/// After any turns in which the capturing side was never hindered, and the
/// final flush, as many files are written as there were `Capture` turns that
/// found a screenshot outstanding.
pub proof fn lemma_one_file_per_capture(shots: ShotsView, steps: Seq<Step>)
    requires
        shots.pool.len() == POOL_SIZE,
        Pipeline::start(shots).unhindered(steps),
    ensures
        Pipeline::start(shots).run(steps).flush().written.len() == captures_while_pending(
            shots.num_shots,
            steps,
        ),
{
    lemma_flush_writes_the_ledger(shots, steps);
    lemma_ledger_counts(shots, steps);
}

/// Frames pass through the worker untouched and in the order they arrived:
/// what a running worker has handed out and what it still holds back are the
/// frames it held back before, followed by the frames that came in.
pub proof fn lemma_worker_passes_frames_on(w: WorkerView, msgs: Seq<MsgView>)
    requires
        w.state == WorkerState::Running,
        forall|i: int| 0 <= i < msgs.len() ==> !(#[trigger] msgs[i] is Kill),
    ensures
        w.run(msgs).0.state == WorkerState::Running,
        buffers_of(w.run(msgs).1) + w.run(msgs).0.queue == w.queue + frames_of(msgs),
    decreases msgs.len(),
{
    if msgs.len() == 0 {
        assert(buffers_of(Seq::<JobView>::empty()) + w.queue =~= w.queue + Seq::<
            BufferView,
        >::empty());
    } else {
        let front = msgs.drop_last();
        lemma_worker_passes_frames_on(w, front);
        let (w1, j1) = w.run(front);
        let (w2, j2) = w1.handle(msgs.last());
        assert(buffers_of(j1 + j2) =~= buffers_of(j1) + buffers_of(j2));
        match msgs.last() {
            MsgView::Buffer(b) => {
                let full = w1.queue.push(b);
                if full.len() > WRITE_BEHIND_DEPTH {
                    assert(buffers_of(j2) =~= seq![full.first()]);
                    assert(buffers_of(j2) + w2.queue =~= full);
                } else {
                    assert(buffers_of(j2) + w2.queue =~= full);
                }
                assert(buffers_of(j1) + buffers_of(j2) + w2.queue =~= (buffers_of(j1)
                    + w1.queue).push(b));
            },
            _ => {
                assert(buffers_of(j2) =~= w1.queue);
                assert(buffers_of(j1) + buffers_of(j2) + w2.queue =~= buffers_of(j1) + w1.queue);
            },
        }
    }
}

/// A frame is captured with the dimensions the surface has at that moment,
/// whatever the dimensions of the buffer it is stored in were before; and a
/// capture leaves the frames captured earlier, written, held back or in
/// flight, as they were.
pub proof fn lemma_frames_keep_their_dimensions(p: Pipeline, dims: (usize, usize), frame: Seq<u8>)
    requires
        p.shots.will_capture(),
    ensures
        ({
            let q = p.step(Step::Capture { dims, frame });
            &&& q.requests == p.requests.push(MsgView::Buffer(BufferView { dims, pixels: frame }))
            &&& q.worker == p.worker
            &&& q.written == p.written
        }),
{
}

/// After the final flush nothing is in flight, nothing is held back and the
/// worker has ended.
pub proof fn lemma_flush_leaves_nothing_behind(p: Pipeline)
    requires
        p.balanced(),
    ensures
        p.flush().requests.len() == 0,
        p.flush().worker.queue.len() == 0,
        p.flush().worker.state == WorkerState::Stopped,
{
    lemma_run_keeps_frames(p.worker, p.requests);
    let (w, jobs) = p.worker.run(p.requests);
    let q = p.send(p.shots, Some(MsgView::Kill));
    assert(q.requests.drop_last() =~= p.requests);
    assert(q.requests.last() == MsgView::Kill);
    let (w2, more) = w.handle(MsgView::Kill);
    assert(q.worker.run(q.requests) == (w2, jobs + more));
}

/// A change of directory starts the numbering over, whatever was written
/// before: the first frame captured after `OutputDir(subdir)` becomes
/// `{basedir}/dist/{subdir}/screenshot1.png`.
pub proof fn lemma_numbering_restarts(
    shots: ShotsView,
    steps: Seq<Step>,
    subdir: Seq<char>,
    dims: (usize, usize),
    frame: Seq<u8>,
)
    requires
        shots.pool.len() == POOL_SIZE,
        pending_after(shots.num_shots, steps) > 0,
        Pipeline::start(shots).unhindered(
            steps.push(Step::OutputDir(subdir)).push(Step::Capture { dims, frame }),
        ),
    ensures
        ({
            let turns = steps.push(Step::OutputDir(subdir)).push(Step::Capture { dims, frame });
            Pipeline::start(shots).run(turns).flush().written.last() == JobView {
                path: joined(joined(dist_dir_of(shots.basedir), subdir), file_name_of(1)),
                buffer: BufferView { dims, pixels: frame },
            }
        }),
{
    let moved = steps.push(Step::OutputDir(subdir));
    let turns = moved.push(Step::Capture { dims, frame });
    lemma_flush_writes_the_ledger(shots, turns);
    lemma_ledger_counts(shots, steps);
    assert(moved.drop_last() =~= steps);
    assert(turns.drop_last() =~= moved);
    let l = Ledger::start(shots);
    assert(moved.last() == Step::OutputDir(subdir));
    assert(turns.last() == Step::Capture { dims, frame });
    assert(l.run(moved) == l.run(steps).step(Step::OutputDir(subdir)));
    assert(l.run(turns) == l.run(moved).step(Step::Capture { dims, frame }));
    assert(l.run(moved).pending > 0);
    assert(l.run(turns).files.last().path == l.run(moved).writer.path_at(0));
}

} // verus!
