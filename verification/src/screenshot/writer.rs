//! Numbering and naming of the files of one output directory.

use crate::screenshot::buffer::{Buffer, BufferView};
use crate::screenshot::naming::{
    file_name, file_name_of, join, joined, lemma_file_names_differ, lemma_joined_paths_differ,
};
use vstd::prelude::*;

verus! {

/// State of a [`ShotWriter`]: the directory it writes to and how many file
/// numbers of that directory are used up.
pub struct WriterView {
    pub num_images: nat,
    pub output_dir: Seq<char>,
}

/// What a [`SaveJob`] asks for: the path of the file and the frame to encode.
pub struct JobView {
    pub path: Seq<char>,
    pub buffer: BufferView,
}

impl WriterView {
    /// A writer that has not numbered any file of `dir` yet.
    pub open spec fn fresh(dir: Seq<char>) -> WriterView {
        WriterView { num_images: 0, output_dir: dir }
    }

    /// Path of the `k`-th file from here on, counting from 0.
    pub open spec fn path_at(self, k: int) -> Seq<char> {
        joined(self.output_dir, file_name_of((self.num_images + 1 + k) as nat))
    }

    /// The writer after `count` more files were numbered.
    pub open spec fn advance(self, count: nat) -> WriterView {
        WriterView { num_images: self.num_images + count, output_dir: self.output_dir }
    }

    /// The jobs that saving `buffers` in order gives: consecutive numbers,
    /// oldest buffer first.
    pub open spec fn jobs(self, buffers: Seq<BufferView>) -> Seq<JobView> {
        Seq::new(
            buffers.len(),
            |k: int| JobView { path: self.path_at(k), buffer: buffers[k] },
        )
    }
}

/// One file to write: the frame in `buffer`, encoded as PNG, at `path`.
///
/// Whoever performs the write hands `buffer` back for reuse afterwards,
/// whether or not the write succeeded.
#[derive(Debug)]
pub struct SaveJob {
    pub path: String,
    pub buffer: Buffer,
}

impl View for SaveJob {
    type V = JobView;

    open spec fn view(&self) -> JobView {
        JobView { path: self.path@, buffer: self.buffer@ }
    }
}

/// Views of a sequence of jobs, in order.
pub open spec fn job_views(jobs: Seq<SaveJob>) -> Seq<JobView> {
    jobs.map_values(|j: SaveJob| j@)
}

/// Hands out file names within the current output directory.
#[derive(Debug)]
pub struct ShotWriter {
    num_images: usize,
    output_dir: String,
}

impl View for ShotWriter {
    type V = WriterView;

    closed spec fn view(&self) -> WriterView {
        WriterView { num_images: self.num_images as nat, output_dir: self.output_dir@ }
    }
}

impl ShotWriter {
    /// A writer for `output_dir` whose first file will be `screenshot1.png`.
    pub fn new(output_dir: String) -> (w: ShotWriter)
        ensures
            w@ == WriterView::fresh(output_dir@),
    {
        ShotWriter { num_images: 0, output_dir }
    }

    /// Number of file names handed out in the current directory.
    pub fn num_images(&self) -> (n: usize)
        ensures
            n == self@.num_images,
    {
        self.num_images
    }

    /// The directory that files are currently written to.
    pub fn output_dir(&self) -> (dir: &str)
        ensures
            dir@ == self@.output_dir,
    {
        self.output_dir.as_str()
    }

    /// Takes the next file number of the current directory for `buffer`.
    ///
    /// The number is used up here, before anything is written: a write that
    /// fails later leaves a gap in the numbering and is not tried again.
    pub fn save(&mut self, buffer: Buffer) -> (job: SaveJob)
        requires
            old(self)@.num_images < usize::MAX,
        ensures
            final(self)@ == old(self)@.advance(1),
            job@ == (JobView { path: old(self)@.path_at(0), buffer: buffer@ }),
    {
        self.num_images += 1;
        let name = file_name(self.num_images);
        let path = join(self.output_dir.as_str(), name.as_str());
        SaveJob { path, buffer }
    }

    /// Switches to `dir` and starts its numbering over.
    pub fn change_dir(&mut self, dir: String)
        ensures
            final(self)@ == WriterView::fresh(dir@),
    {
        self.output_dir = dir;
        self.num_images = 0;
    }
}

/// No number is handed out twice within a directory: the files that a writer
/// names from any point on have paths that differ from one another.
pub proof fn lemma_paths_differ(w: WriterView, i: int, j: int)
    requires
        0 <= i < j,
    ensures
        w.path_at(i) != w.path_at(j),
{
    let m = (w.num_images + 1 + i) as nat;
    let n = (w.num_images + 1 + j) as nat;
    lemma_file_names_differ(m, n);
    lemma_joined_paths_differ(w.output_dir, file_name_of(m), file_name_of(n));
}

} // verus!
