use sketchbook::screenshot::buffer::{new_screenshot_buffer, Buffer};
use sketchbook::screenshot::worker::{save_images, Msg, SaveWorker, WorkerState, WRITE_BEHIND_DEPTH};
use sketchbook::screenshot::writer::{SaveJob, ShotWriter};
use std::collections::VecDeque;

fn frame(tag: u8) -> Buffer {
    let mut b = new_screenshot_buffer((1, 1)).unwrap();
    b.store((1, 1), &[tag, tag, tag, tag]);
    b
}

fn tags(jobs: &[SaveJob]) -> Vec<(String, u8)> {
    jobs.iter().map(|j| (j.path.clone(), j.buffer.pixels()[0])).collect()
}

#[test]
fn write_behind_depth_is_two() {
    assert_eq!(WRITE_BEHIND_DEPTH, 2);
}

#[test]
fn writer_numbers_from_one() {
    let mut w = ShotWriter::new(String::from("out"));
    assert_eq!(w.num_images(), 0);
    assert_eq!(w.output_dir(), "out");
    let job = w.save(frame(7));
    assert_eq!(job.path, "out/screenshot1.png");
    assert_eq!(job.buffer.pixels().as_slice(), &[7, 7, 7, 7]);
    assert_eq!(w.num_images(), 1);
    let job = w.save(frame(8));
    assert_eq!(job.path, "out/screenshot2.png");
    assert_eq!(w.num_images(), 2);
}

#[test]
fn writer_change_dir_restarts_numbering() {
    let mut w = ShotWriter::new(String::from("a"));
    w.save(frame(1));
    w.save(frame(2));
    w.change_dir(String::from("b"));
    assert_eq!(w.num_images(), 0);
    assert_eq!(w.output_dir(), "b");
    assert_eq!(w.save(frame(3)).path, "b/screenshot1.png");
}

#[test]
fn new_worker_runs_and_holds_nothing() {
    let w = SaveWorker::new(ShotWriter::new(String::from("out")));
    assert_eq!(w.state(), WorkerState::Running);
    assert!(w.is_running());
    assert_eq!(w.queued(), 0);
    assert_eq!(w.num_images(), 0);
    assert_eq!(w.output_dir(), "out");
}

#[test]
fn worker_holds_back_two_frames() {
    let mut w = SaveWorker::new(ShotWriter::new(String::from("out")));
    assert!(w.handle(Msg::Buffer(frame(1))).is_empty());
    assert_eq!(w.queued(), 1);
    assert!(w.handle(Msg::Buffer(frame(2))).is_empty());
    assert_eq!(w.queued(), 2);
    assert_eq!(w.num_images(), 0);
}

#[test]
fn third_frame_pushes_out_the_oldest() {
    let mut w = SaveWorker::new(ShotWriter::new(String::from("out")));
    w.handle(Msg::Buffer(frame(1)));
    w.handle(Msg::Buffer(frame(2)));
    let jobs = w.handle(Msg::Buffer(frame(3)));
    assert_eq!(tags(&jobs), vec![(String::from("out/screenshot1.png"), 1)]);
    assert_eq!(w.queued(), 2);
    assert_eq!(w.num_images(), 1);
    let jobs = w.handle(Msg::Buffer(frame(4)));
    assert_eq!(tags(&jobs), vec![(String::from("out/screenshot2.png"), 2)]);
    assert_eq!(w.queued(), 2);
}

#[test]
fn flush_writes_everything_in_arrival_order() {
    let mut w = SaveWorker::new(ShotWriter::new(String::from("out")));
    w.handle(Msg::Buffer(frame(5)));
    w.handle(Msg::Buffer(frame(6)));
    let jobs = w.handle(Msg::Flush);
    assert_eq!(
        tags(&jobs),
        vec![
            (String::from("out/screenshot1.png"), 5),
            (String::from("out/screenshot2.png"), 6),
        ]
    );
    assert_eq!(w.queued(), 0);
    assert_eq!(w.num_images(), 2);
    assert!(w.is_running());
}

#[test]
fn flush_of_empty_queue_writes_nothing() {
    let mut w = SaveWorker::new(ShotWriter::new(String::from("out")));
    assert!(w.handle(Msg::Flush).is_empty());
    assert_eq!(w.num_images(), 0);
    assert!(w.is_running());
}

#[test]
fn numbering_continues_after_flush() {
    let mut w = SaveWorker::new(ShotWriter::new(String::from("out")));
    w.handle(Msg::Buffer(frame(1)));
    w.handle(Msg::Flush);
    w.handle(Msg::Buffer(frame(2)));
    let jobs = w.handle(Msg::Flush);
    assert_eq!(tags(&jobs), vec![(String::from("out/screenshot2.png"), 2)]);
}

#[test]
fn change_dir_drains_into_old_directory_first() {
    let mut w = SaveWorker::new(ShotWriter::new(String::from("a")));
    w.handle(Msg::Buffer(frame(1)));
    w.handle(Msg::Buffer(frame(2)));
    let jobs = w.handle(Msg::ChangeDir(String::from("b")));
    assert_eq!(
        tags(&jobs),
        vec![(String::from("a/screenshot1.png"), 1), (String::from("a/screenshot2.png"), 2)]
    );
    assert_eq!(w.output_dir(), "b");
    assert_eq!(w.num_images(), 0);
    assert_eq!(w.queued(), 0);
    assert!(w.is_running());
    w.handle(Msg::Buffer(frame(3)));
    let jobs = w.handle(Msg::Flush);
    assert_eq!(tags(&jobs), vec![(String::from("b/screenshot1.png"), 3)]);
}

#[test]
fn change_dir_forgets_the_old_numbering() {
    let mut long = SaveWorker::new(ShotWriter::new(String::from("a")));
    for i in 0..7u8 {
        long.handle(Msg::Buffer(frame(i)));
    }
    long.handle(Msg::ChangeDir(String::from("b")));
    let mut short = SaveWorker::new(ShotWriter::new(String::from("c")));
    short.handle(Msg::ChangeDir(String::from("b")));
    for w in [&mut long, &mut short] {
        assert_eq!(w.num_images(), 0);
        w.handle(Msg::Buffer(frame(9)));
        let jobs = w.handle(Msg::Flush);
        assert_eq!(tags(&jobs), vec![(String::from("b/screenshot1.png"), 9)]);
    }
}

#[test]
fn kill_drains_then_stops() {
    let mut w = SaveWorker::new(ShotWriter::new(String::from("out")));
    w.handle(Msg::Buffer(frame(1)));
    w.handle(Msg::Buffer(frame(2)));
    let jobs = w.handle(Msg::Kill);
    assert_eq!(
        tags(&jobs),
        vec![
            (String::from("out/screenshot1.png"), 1),
            (String::from("out/screenshot2.png"), 2),
        ]
    );
    assert_eq!(w.queued(), 0);
    assert_eq!(w.state(), WorkerState::Draining);
    assert!(!w.is_running());
    w.finish();
    assert_eq!(w.state(), WorkerState::Stopped);
}

#[test]
fn finish_leaves_a_running_worker_running() {
    let mut w = SaveWorker::new(ShotWriter::new(String::from("out")));
    w.finish();
    assert_eq!(w.state(), WorkerState::Running);
    w.handle(Msg::Kill);
    w.finish();
    w.finish();
    assert_eq!(w.state(), WorkerState::Stopped);
}

#[test]
fn ended_worker_drops_requests() {
    let mut w = SaveWorker::new(ShotWriter::new(String::from("out")));
    w.handle(Msg::Kill);
    assert!(w.handle(Msg::Buffer(frame(1))).is_empty());
    assert!(w.handle(Msg::Flush).is_empty());
    assert!(w.handle(Msg::ChangeDir(String::from("b"))).is_empty());
    assert!(w.handle(Msg::Kill).is_empty());
    assert_eq!(w.queued(), 0);
    assert_eq!(w.output_dir(), "out");
    assert_eq!(w.state(), WorkerState::Draining);
    w.finish();
    assert!(w.handle(Msg::Buffer(frame(2))).is_empty());
    assert_eq!(w.queued(), 0);
    assert_eq!(w.state(), WorkerState::Stopped);
}

#[test]
fn save_images_runs_a_whole_queue() {
    let mut q = VecDeque::new();
    for i in 1..=4u8 {
        q.push_back(Msg::Buffer(frame(i)));
    }
    q.push_back(Msg::ChangeDir(String::from("b")));
    q.push_back(Msg::Buffer(frame(5)));
    q.push_back(Msg::Kill);
    let jobs = save_images(ShotWriter::new(String::from("a")), q);
    assert_eq!(
        tags(&jobs),
        vec![
            (String::from("a/screenshot1.png"), 1),
            (String::from("a/screenshot2.png"), 2),
            (String::from("a/screenshot3.png"), 3),
            (String::from("a/screenshot4.png"), 4),
            (String::from("b/screenshot1.png"), 5),
        ]
    );
}

#[test]
fn save_images_without_kill_keeps_the_last_two_back() {
    let mut q = VecDeque::new();
    for i in 1..=5u8 {
        q.push_back(Msg::Buffer(frame(i)));
    }
    let jobs = save_images(ShotWriter::new(String::from("a")), q);
    assert_eq!(jobs.len(), 3);
    assert_eq!(jobs[2].path, "a/screenshot3.png");
}

#[test]
fn save_images_drops_requests_behind_kill() {
    let mut q = VecDeque::new();
    q.push_back(Msg::Buffer(frame(1)));
    q.push_back(Msg::Kill);
    q.push_back(Msg::Buffer(frame(2)));
    q.push_back(Msg::Flush);
    let jobs = save_images(ShotWriter::new(String::from("a")), q);
    assert_eq!(tags(&jobs), vec![(String::from("a/screenshot1.png"), 1)]);
}

#[test]
fn save_images_of_nothing() {
    let jobs = save_images(ShotWriter::new(String::from("a")), VecDeque::new());
    assert!(jobs.is_empty());
}

#[test]
fn queued_frames_keep_their_dimensions() {
    let mut w = SaveWorker::new(ShotWriter::new(String::from("out")));
    let mut small = new_screenshot_buffer((1, 1)).unwrap();
    small.store((1, 1), &[1, 2, 3, 4]);
    let mut large = new_screenshot_buffer((2, 2)).unwrap();
    large.store((2, 2), &[9; 16]);
    w.handle(Msg::Buffer(small));
    w.handle(Msg::Buffer(large));
    let jobs = w.handle(Msg::Flush);
    assert_eq!(jobs[0].buffer.dims(), (1, 1));
    assert_eq!(jobs[0].buffer.pixels().as_slice(), &[1, 2, 3, 4]);
    assert_eq!(jobs[1].buffer.dims(), (2, 2));
    assert_eq!(jobs[1].buffer.pixels().as_slice(), &[9; 16]);
}
