//! The capturing side: outstanding screenshot requests, the pool of free
//! buffers and the idle-frame flush.

use crate::screenshot::buffer::{byte_len, fits, new_screenshot_buffer, Buffer, BufferView};
use crate::screenshot::naming::{dist_dir, dist_dir_of, join, joined};
use crate::screenshot::worker::{buffer_views, Msg, MsgView};
use crate::screenshot::writer::{ShotWriter, WriterView};
use std::collections::VecDeque;
use vstd::prelude::*;

verus! {

/// Number of buffers in circulation between the two sides.
pub const POOL_SIZE: usize = 3;

/// Number of frames without a capture after which held-back frames are
/// flushed to disk.
pub const FLUSH_AFTER_IDLE_FRAMES: usize = 2;

/// Idle-frame count of a pipeline that has not captured anything yet. It lies
/// past [`FLUSH_AFTER_IDLE_FRAMES`], so that no flush is sent before the first
/// capture.
pub const IDLE_FRAMES_AT_START: usize = FLUSH_AFTER_IDLE_FRAMES + 1;

/// Why a pipeline could not be set up.
#[derive(Clone, Copy, Debug, PartialEq, Eq, Structural)]
pub enum ShotsError {
    /// A frame of the given dimensions has more bytes than one allocation can
    /// hold.
    FrameTooLarge,
}

/// State of a [`Shots`] handle.
pub struct ShotsView {
    /// Screenshots asked for and not yet captured.
    pub num_shots: nat,
    /// Frames since the last capture.
    pub idle_frames: nat,
    /// Free buffers, in the order they came back.
    pub pool: Seq<BufferView>,
    pub basedir: Seq<char>,
}

impl ShotsView {
    /// Whether the next rendered frame will be captured: a screenshot is
    /// outstanding and a buffer is free.
    pub open spec fn will_capture(self) -> bool {
        self.num_shots > 0 && self.pool.len() > 0
    }

    /// The state after one more screenshot was asked for.
    pub open spec fn take(self) -> ShotsView {
        ShotsView {
            num_shots: self.num_shots + 1,
            idle_frames: self.idle_frames,
            pool: self.pool,
            basedir: self.basedir,
        }
    }

    /// The state after a buffer came back from the saving side.
    pub open spec fn recycle(self, buffer: BufferView) -> ShotsView {
        ShotsView {
            num_shots: self.num_shots,
            idle_frames: self.idle_frames,
            pool: self.pool.push(buffer),
            basedir: self.basedir,
        }
    }

    /// The state after a rendered frame, and the request the frame gives
    /// rise to.
    ///
    /// With a screenshot outstanding and a buffer free, the frame is captured:
    /// it is sent off in the oldest free buffer, one request is fulfilled and
    /// the idle count starts over. Otherwise the frame counts as idle, and the
    /// frame on which the idle count reaches [`FLUSH_AFTER_IDLE_FRAMES`] sends
    /// a flush.
    pub open spec fn capture(self, dims: (usize, usize), frame: Seq<u8>) -> (
        ShotsView,
        Option<MsgView>,
    ) {
        if self.will_capture() {
            (
                ShotsView {
                    num_shots: (self.num_shots - 1) as nat,
                    idle_frames: 0,
                    pool: self.pool.drop_first(),
                    basedir: self.basedir,
                },
                Some(MsgView::Buffer(BufferView { dims, pixels: frame })),
            )
        } else {
            let idle: nat = if self.idle_frames < usize::MAX {
                self.idle_frames + 1
            } else {
                self.idle_frames
            };
            (
                ShotsView {
                    num_shots: self.num_shots,
                    idle_frames: idle,
                    pool: self.pool,
                    basedir: self.basedir,
                },
                if idle == FLUSH_AFTER_IDLE_FRAMES {
                    Some(MsgView::Flush)
                } else {
                    None
                },
            )
        }
    }

    /// The directory that `subdir` names: `{basedir}/dist/{subdir}`.
    pub open spec fn subdir_path(self, subdir: Seq<char>) -> Seq<char> {
        joined(dist_dir_of(self.basedir), subdir)
    }
}

/// What an optional request holds.
pub open spec fn sent_view(sent: Option<Msg>) -> Option<MsgView> {
    match sent {
        Some(msg) => Some(msg@),
        None => None,
    }
}

/// The handle of the capturing side.
///
/// It counts the screenshots asked for, keeps the buffers that are free, and
/// decides for each rendered frame whether the frame is captured and whether
/// a flush is due. The requests it returns are to be delivered to a
/// [`crate::screenshot::worker::SaveWorker`] in the order they were returned.
#[derive(Debug)]
pub struct Shots {
    num_shots: usize,
    frames_since_empty: usize,
    pool: VecDeque<Buffer>,
    basedir: String,
}

impl View for Shots {
    type V = ShotsView;

    closed spec fn view(&self) -> ShotsView {
        ShotsView {
            num_shots: self.num_shots as nat,
            idle_frames: self.frames_since_empty as nat,
            pool: buffer_views(self.pool@),
            basedir: self.basedir@,
        }
    }
}

impl Shots {
    /// Sets up the capturing side for a surface of the given dimensions.
    ///
    /// Captured images go to `{basedir}/dist/`, or to a directory below it
    /// chosen with [`Shots::output_dir`]. The pool starts with [`POOL_SIZE`]
    /// zero-filled buffers sized for `dims`. Fails exactly when a frame of
    /// these dimensions cannot be held in memory.
    pub fn new(dims: (usize, usize), basedir: &str) -> (r: Result<Shots, ShotsError>)
        ensures
            r is Ok <==> fits(dims),
            r is Err ==> r->Err_0 == ShotsError::FrameTooLarge,
            r is Ok ==> {
                let s = r->Ok_0@;
                &&& s.num_shots == 0
                &&& s.idle_frames == IDLE_FRAMES_AT_START
                &&& s.basedir == basedir@
                &&& s.pool == Seq::new(
                    POOL_SIZE as nat,
                    |i: int|
                        BufferView {
                            dims,
                            pixels: Seq::new(byte_len(dims) as nat, |j: int| 0u8),
                        },
                )
            },
    {
        let mut pool: VecDeque<Buffer> = VecDeque::new();
        let ghost blank = BufferView {
            dims,
            pixels: Seq::new(byte_len(dims) as nat, |j: int| 0u8),
        };
        let mut i: usize = 0;
        while i < POOL_SIZE
            invariant
                i <= POOL_SIZE,
                pool@.len() == i,
                blank == (BufferView {
                    dims,
                    pixels: Seq::new(byte_len(dims) as nat, |j: int| 0u8),
                }),
                forall|k: int| 0 <= k < i ==> (#[trigger] pool@[k])@ == blank,
                i > 0 ==> fits(dims),
            decreases POOL_SIZE - i,
        {
            match new_screenshot_buffer(dims) {
                None => {
                    return Err(ShotsError::FrameTooLarge);
                },
                Some(image) => {
                    pool.push_back(image);
                },
            }
            i += 1;
        }
        let shots = Shots {
            num_shots: 0,
            frames_since_empty: IDLE_FRAMES_AT_START,
            pool,
            basedir: String::from_str(basedir),
        };
        assert(shots@.pool =~= Seq::new(POOL_SIZE as nat, |i: int| blank));
        Ok(shots)
    }

    /// The writer that the saving side starts with: it writes to
    /// `{basedir}/dist` and numbers from 1.
    pub fn writer(&self) -> (w: ShotWriter)
        ensures
            w@ == WriterView::fresh(dist_dir_of(self@.basedir)),
    {
        ShotWriter::new(dist_dir(self.basedir.as_str()))
    }

    /// Number of screenshots asked for and not yet captured.
    pub fn num_shots(&self) -> (n: usize)
        ensures
            n == self@.num_shots,
    {
        self.num_shots
    }

    /// Number of frames since the last capture.
    pub fn idle_frames(&self) -> (n: usize)
        ensures
            n == self@.idle_frames,
    {
        self.frames_since_empty
    }

    /// Number of free buffers.
    pub fn free_buffers(&self) -> (n: usize)
        ensures
            n == self@.pool.len(),
    {
        self.pool.len()
    }

    /// Whether the next call of [`Shots::capture`] will capture its frame.
    pub fn will_capture(&self) -> (r: bool)
        ensures
            r == self@.will_capture(),
    {
        self.num_shots > 0 && self.pool.len() > 0
    }

    /// Whether a screenshot is outstanding while no buffer is free. This is
    /// the point at which the capturing side waits for the saving side to
    /// hand a buffer back.
    pub fn needs_buffer(&self) -> (r: bool)
        ensures
            r == (self@.num_shots > 0 && self@.pool.len() == 0),
    {
        self.num_shots > 0 && self.pool.len() == 0
    }

    /// Asks for one more screenshot: the next frame that finds a free buffer
    /// is captured.
    pub fn take(&mut self)
        requires
            old(self)@.num_shots < usize::MAX,
        ensures
            final(self)@ == old(self)@.take(),
    {
        self.num_shots += 1;
    }

    /// Puts a buffer that the saving side is done with back into the pool.
    pub fn recycle(&mut self, buffer: Buffer)
        ensures
            final(self)@ == old(self)@.recycle(buffer@),
    {
        self.pool.push_back(buffer);
        assert(buffer_views(self.pool@) =~= old(self)@.pool.push(buffer@));
    }

    /// Decides what happens with a rendered frame. To be called once per
    /// frame, whether or not a screenshot is outstanding.
    ///
    /// `dims` are the current dimensions of the surface and `frame` its pixel
    /// bytes; `frame` is read only when the frame is captured. The request
    /// that is returned, if any, is to be sent to the saving side.
    pub fn capture(&mut self, dims: (usize, usize), frame: &[u8]) -> (sent: Option<Msg>)
        requires
            old(self)@.will_capture() ==> frame@.len() == byte_len(dims),
        ensures
            (final(self)@, sent_view(sent)) == old(self)@.capture(dims, frame@),
    {
        if self.num_shots > 0 && self.pool.len() > 0 {
            let ghost free = self.pool@;
            let mut image = self.pool.pop_front().unwrap();
            image.store(dims, frame);
            self.num_shots -= 1;
            self.frames_since_empty = 0;
            proof {
                assert forall|i: int| 0 <= i < self.pool@.len() implies buffer_views(
                    self.pool@,
                )[i] == old(self)@.pool.drop_first()[i] by {
                    assert(buffer_views(free)[i + 1] == free[i + 1]@);
                }
                assert(buffer_views(self.pool@) =~= old(self)@.pool.drop_first());
            }
            Some(Msg::Buffer(image))
        } else {
            if self.frames_since_empty < usize::MAX {
                self.frames_since_empty += 1;
            }
            if self.frames_since_empty == FLUSH_AFTER_IDLE_FRAMES {
                Some(Msg::Flush)
            } else {
                None
            }
        }
    }

    /// The request that switches the saving side to the directory
    /// `{basedir}/dist/{subdir}`. The directory has to exist before the
    /// request is sent.
    pub fn output_dir(&self, subdir: &str) -> (msg: Msg)
        ensures
            msg@ == MsgView::ChangeDir(self@.subdir_path(subdir@)),
    {
        let dist = dist_dir(self.basedir.as_str());
        Msg::ChangeDir(join(dist.as_str(), subdir))
    }

    /// Ends the capturing side and returns the request that makes the saving
    /// side write everything it holds back and stop.
    pub fn flush(self) -> (msg: Msg)
        ensures
            msg@ == MsgView::Kill,
    {
        Msg::Kill
    }
}

} // verus!
