//! Frame capture and persistence pipeline for a real-time render loop.
//!
//! A render thread asks for screenshots with [`Shots::take`] and calls
//! [`Shots::capture`] once per rendered frame. Captured frames travel as
//! [`Msg`] requests to a [`SaveWorker`], which holds back the two most recent
//! frames and hands out the older ones as [`SaveJob`]s to be written to disk.
//! A fixed set of three pixel buffers circulates between the two sides.
//!
//! The module holds the decisions of both sides as plain state machines. The
//! host owns the threads, the queues between them, the GPU readback and the
//! image codec.

pub mod buffer;
pub mod naming;
pub mod pipeline;
pub mod shots;
pub mod worker;
pub mod writer;

pub use buffer::{new_screenshot_buffer, Buffer, NUM_COLOURS};
pub use shots::{Shots, ShotsError};
pub use worker::{save_images, Msg, SaveWorker, WorkerState};
pub use writer::{SaveJob, ShotWriter};
