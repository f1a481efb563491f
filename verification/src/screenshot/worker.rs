//! The saving side: a write-behind queue of captured frames.

use crate::screenshot::buffer::{Buffer, BufferView};
use crate::screenshot::writer::{job_views, JobView, SaveJob, ShotWriter, WriterView};
use std::collections::VecDeque;
use vstd::prelude::*;

verus! {

/// Number of captured frames the worker holds back before the oldest one is
/// written.
pub const WRITE_BEHIND_DEPTH: usize = 2;

/// A request to the save worker.
#[derive(Debug)]
pub enum Msg {
    /// A captured frame to persist.
    Buffer(Buffer),
    /// Write everything that is held back.
    Flush,
    /// Write everything that is held back, then stop.
    Kill,
    /// Write everything that is held back, then continue in another
    /// directory, numbering from 1 again.
    ChangeDir(String),
}

/// What a [`Msg`] holds.
pub enum MsgView {
    Buffer(BufferView),
    Flush,
    Kill,
    ChangeDir(Seq<char>),
}

impl View for Msg {
    type V = MsgView;

    open spec fn view(&self) -> MsgView {
        match self {
            Msg::Buffer(b) => MsgView::Buffer(b@),
            Msg::Flush => MsgView::Flush,
            Msg::Kill => MsgView::Kill,
            Msg::ChangeDir(dir) => MsgView::ChangeDir(dir@),
        }
    }
}

/// Views of a sequence of requests, in order.
pub open spec fn msg_views(msgs: Seq<Msg>) -> Seq<MsgView> {
    msgs.map_values(|m: Msg| m@)
}

/// Views of a sequence of buffers, in order.
pub open spec fn buffer_views(buffers: Seq<Buffer>) -> Seq<BufferView> {
    buffers.map_values(|b: Buffer| b@)
}

/// Where the worker is in its life.
#[derive(Clone, Copy, Debug, PartialEq, Eq, Structural)]
pub enum WorkerState {
    /// Receiving requests.
    Running,
    /// `Kill` was received: the last jobs were handed out and are being
    /// written.
    Draining,
    /// The worker has ended and takes no more requests.
    Stopped,
}

/// State of a [`SaveWorker`].
pub struct WorkerView {
    pub writer: WriterView,
    /// Frames held back, oldest first.
    pub queue: Seq<BufferView>,
    pub state: WorkerState,
}

impl WorkerView {
    /// A running worker with nothing held back.
    pub open spec fn start(writer: WriterView) -> WorkerView {
        WorkerView { writer, queue: Seq::empty(), state: WorkerState::Running }
    }

    /// The worker after everything held back was handed out for writing,
    /// with the jobs in the order the frames arrived.
    pub open spec fn drain(self) -> (WorkerView, Seq<JobView>) {
        (
            WorkerView {
                writer: self.writer.advance(self.queue.len()),
                queue: Seq::empty(),
                state: self.state,
            },
            self.writer.jobs(self.queue),
        )
    }

    /// The worker after one request, and the jobs the request gave rise to.
    pub open spec fn handle(self, msg: MsgView) -> (WorkerView, Seq<JobView>) {
        if self.state != WorkerState::Running {
            (self, Seq::empty())
        } else {
            match msg {
                MsgView::Buffer(b) => {
                    let queue = self.queue.push(b);
                    if queue.len() > WRITE_BEHIND_DEPTH {
                        (
                            WorkerView {
                                writer: self.writer.advance(1),
                                queue: queue.drop_first(),
                                state: self.state,
                            },
                            self.writer.jobs(seq![queue.first()]),
                        )
                    } else {
                        (WorkerView { writer: self.writer, queue, state: self.state }, Seq::empty())
                    }
                },
                MsgView::Flush => self.drain(),
                MsgView::Kill => {
                    let (w, jobs) = self.drain();
                    (
                        WorkerView { writer: w.writer, queue: w.queue, state: WorkerState::Draining },
                        jobs,
                    )
                },
                MsgView::ChangeDir(dir) => {
                    let (w, jobs) = self.drain();
                    (
                        WorkerView {
                            writer: WriterView::fresh(dir),
                            queue: w.queue,
                            state: w.state,
                        },
                        jobs,
                    )
                },
            }
        }
    }

    /// The worker after a sequence of requests, and all jobs they gave rise
    /// to, in order.
    pub open spec fn run(self, msgs: Seq<MsgView>) -> (WorkerView, Seq<JobView>)
        decreases msgs.len(),
    {
        if msgs.len() == 0 {
            (self, Seq::empty())
        } else {
            let (w, jobs) = self.run(msgs.drop_last());
            let (w2, more) = w.handle(msgs.last());
            (w2, jobs + more)
        }
    }

    /// The worker after its last jobs were written.
    pub open spec fn finish(self) -> WorkerView {
        if self.state == WorkerState::Draining {
            WorkerView { writer: self.writer, queue: self.queue, state: WorkerState::Stopped }
        } else {
            self
        }
    }

    /// Whether the file counter has room for every frame held back and one
    /// more.
    pub open spec fn has_room(self) -> bool {
        self.writer.num_images + self.queue.len() < usize::MAX
    }
}

/// The consumer of capture requests. It holds captured frames back in arrival
/// order and turns them into [`SaveJob`]s.
#[derive(Debug)]
pub struct SaveWorker {
    writer: ShotWriter,
    queue: VecDeque<Buffer>,
    state: WorkerState,
}

impl View for SaveWorker {
    type V = WorkerView;

    closed spec fn view(&self) -> WorkerView {
        WorkerView { writer: self.writer@, queue: buffer_views(self.queue@), state: self.state }
    }
}

impl SaveWorker {
    /// A running worker that writes through `writer` and holds nothing back
    /// yet.
    pub fn new(writer: ShotWriter) -> (w: SaveWorker)
        ensures
            w@ == WorkerView::start(writer@),
    {
        let w = SaveWorker { writer, queue: VecDeque::new(), state: WorkerState::Running };
        assert(buffer_views(w.queue@) =~= Seq::empty());
        w
    }

    /// Where the worker is in its life.
    pub fn state(&self) -> (s: WorkerState)
        ensures
            s == self@.state,
    {
        self.state
    }

    /// Whether the worker still takes requests.
    pub fn is_running(&self) -> (r: bool)
        ensures
            r == (self@.state == WorkerState::Running),
    {
        self.state == WorkerState::Running
    }

    /// Number of frames held back.
    pub fn queued(&self) -> (n: usize)
        ensures
            n == self@.queue.len(),
    {
        self.queue.len()
    }

    /// Number of file names handed out in the current directory.
    pub fn num_images(&self) -> (n: usize)
        ensures
            n == self@.writer.num_images,
    {
        self.writer.num_images()
    }

    /// The directory that files are currently written to.
    pub fn output_dir(&self) -> (dir: &str)
        ensures
            dir@ == self@.writer.output_dir,
    {
        self.writer.output_dir()
    }

    /// Hands out every frame held back, oldest first.
    fn drain(&mut self) -> (jobs: Vec<SaveJob>)
        requires
            old(self)@.writer.num_images + old(self)@.queue.len() <= usize::MAX,
        ensures
            (final(self)@, job_views(jobs@)) == old(self)@.drain(),
    {
        let ghost start = self@;
        let mut jobs: Vec<SaveJob> = Vec::new();
        assert(job_views(jobs@) =~= start.writer.jobs(start.queue).take(0));
        while self.queue.len() > 0
            invariant
                jobs@.len() + self.queue@.len() == start.queue.len(),
                buffer_views(self.queue@) == start.queue.skip(jobs@.len() as int),
                self.writer@ == start.writer.advance(jobs@.len() as nat),
                self.state == start.state,
                job_views(jobs@) == start.writer.jobs(start.queue).take(jobs@.len() as int),
                start.writer.num_images + start.queue.len() <= usize::MAX,
            decreases self.queue@.len(),
        {
            let ghost done = jobs@;
            let ghost left = self.queue@;
            let image = self.queue.pop_front().unwrap();
            let job = self.writer.save(image);
            jobs.push(job);
            proof {
                let k = done.len() as int;
                assert(buffer_views(left)[0] == image@);
                assert(image@ == start.queue[k]);
                assert forall|i: int| 0 <= i < self.queue@.len() implies buffer_views(
                    self.queue@,
                )[i] == start.queue.skip(k + 1)[i] by {
                    assert(buffer_views(left)[i + 1] == left[i + 1]@);
                }
                assert(buffer_views(self.queue@) =~= start.queue.skip(k + 1));
                assert(job_views(jobs@) =~= start.writer.jobs(start.queue).take(k + 1));
            }
        }
        proof {
            assert(buffer_views(self.queue@) =~= Seq::empty());
            assert(job_views(jobs@) =~= start.writer.jobs(start.queue));
        }
        jobs
    }

    /// Takes one request and returns the files to write because of it, in
    /// the order they are to be written.
    ///
    /// A captured frame joins the queue; once more than
    /// [`WRITE_BEHIND_DEPTH`] frames are held back, the oldest is handed out.
    /// `Flush`, `ChangeDir` and `Kill` hand out everything held back;
    /// `ChangeDir` then switches directory and restarts the numbering, `Kill`
    /// ends the worker's running phase. A worker that is no longer running
    /// drops the request.
    pub fn handle(&mut self, msg: Msg) -> (jobs: Vec<SaveJob>)
        requires
            old(self)@.state == WorkerState::Running ==> old(self)@.has_room(),
        ensures
            (final(self)@, job_views(jobs@)) == old(self)@.handle(msg@),
            jobs@.len() == old(self)@.handle(msg@).1.len(),
    {
        if self.state != WorkerState::Running {
            let jobs: Vec<SaveJob> = Vec::new();
            assert(job_views(jobs@) =~= Seq::empty());
            return jobs;
        }
        let jobs = self.serve(msg);
        assert(job_views(jobs@).len() == jobs@.len());
        jobs
    }

    /// What a running worker does with a request.
    fn serve(&mut self, msg: Msg) -> (jobs: Vec<SaveJob>)
        requires
            old(self)@.state == WorkerState::Running,
            old(self)@.has_room(),
        ensures
            (final(self)@, job_views(jobs@)) == old(self)@.handle(msg@),
    {
        match msg {
            Msg::Buffer(image) => {
                let ghost before = self@;
                self.queue.push_back(image);
                assert(buffer_views(self.queue@) =~= before.queue.push(image@));
                let mut jobs: Vec<SaveJob> = Vec::new();
                if self.queue.len() > WRITE_BEHIND_DEPTH {
                    let ghost full = self.queue@;
                    let oldest = self.queue.pop_front().unwrap();
                    let job = self.writer.save(oldest);
                    jobs.push(job);
                    proof {
                        let queue = before.queue.push(image@);
                        assert(buffer_views(full) == queue);
                        assert(oldest@ == queue.first());
                        assert forall|i: int| 0 <= i < self.queue@.len() implies buffer_views(
                            self.queue@,
                        )[i] == queue.drop_first()[i] by {
                            assert(buffer_views(full)[i + 1] == full[i + 1]@);
                        }
                        assert(buffer_views(self.queue@) =~= queue.drop_first());
                        assert(job_views(jobs@) =~= before.writer.jobs(seq![queue.first()]));
                    }
                } else {
                    assert(job_views(jobs@) =~= Seq::empty());
                }
                jobs
            },
            Msg::Flush => self.drain(),
            Msg::Kill => {
                let jobs = self.drain();
                self.state = WorkerState::Draining;
                jobs
            },
            Msg::ChangeDir(dir) => {
                let jobs = self.drain();
                self.writer.change_dir(dir);
                jobs
            },
        }
    }

    /// Records that the last jobs were written: a draining worker stops.
    pub fn finish(&mut self)
        ensures
            final(self)@ == old(self)@.finish(),
    {
        if self.state == WorkerState::Draining {
            self.state = WorkerState::Stopped;
        }
    }
}

/// Runs a worker over a queue of requests, oldest first, and returns every
/// file to write, in the order the files are to be written.
///
/// Requests behind a `Kill` are dropped. Without a `Kill`, the frames still
/// held back at the end are not written.
pub fn save_images(screenshot: ShotWriter, save_in: VecDeque<Msg>) -> (jobs: Vec<SaveJob>)
    requires
        screenshot@.num_images + save_in@.len() < usize::MAX,
    ensures
        job_views(jobs@) == WorkerView::start(screenshot@).run(msg_views(save_in@)).1,
        jobs@.len() == WorkerView::start(screenshot@).run(msg_views(save_in@)).1.len(),
{
    let ghost start = WorkerView::start(screenshot@);
    let ghost all = msg_views(save_in@);
    let mut save_in = save_in;
    let mut worker = SaveWorker::new(screenshot);
    let mut jobs: Vec<SaveJob> = Vec::new();
    let ghost mut done: int = 0;
    assert(all.take(0) =~= Seq::empty());
    assert(job_views(jobs@) =~= Seq::empty());
    while save_in.len() > 0
        invariant
            0 <= done <= all.len(),
            msg_views(save_in@) == all.skip(done),
            (worker@, job_views(jobs@)) == start.run(all.take(done)),
            worker@.writer.num_images + worker@.queue.len() + save_in@.len() < usize::MAX,
        decreases save_in@.len(),
    {
        let ghost left = save_in@;
        let ghost before = jobs@;
        let msg = save_in.pop_front().unwrap();
        let mut more = worker.handle(msg);
        let ghost added = more@;
        jobs.append(&mut more);
        proof {
            assert(msg_views(left).len() == left.len());
            assert(done < all.len());
            assert(msg_views(left)[0] == msg@);
            assert(all.skip(done)[0] == all[done]);
            assert(msg@ == all[done]);
            assert forall|i: int| 0 <= i < save_in@.len() implies msg_views(save_in@)[i]
                == all.skip(done + 1)[i] by {
                assert(msg_views(left)[i + 1] == left[i + 1]@);
                assert(all.skip(done)[i + 1] == all[done + 1 + i]);
            }
            assert(msg_views(save_in@) =~= all.skip(done + 1));
            assert(all.take(done + 1).drop_last() =~= all.take(done));
            assert(all.take(done + 1).last() == all[done]);
            assert(job_views(jobs@) =~= job_views(before) + job_views(added));
            done = done + 1;
        }
    }
    assert(all.take(done) =~= all);
    assert(job_views(jobs@).len() == jobs@.len());
    jobs
}

} // verus!
