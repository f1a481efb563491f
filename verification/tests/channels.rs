use sketchbook::screenshot::buffer::Buffer;
use sketchbook::screenshot::shots::Shots;
use sketchbook::screenshot::worker::{Msg, SaveWorker, WorkerState};
use std::sync::mpsc::{channel, Receiver, Sender};

type Disk = Vec<(String, (usize, usize), Vec<u8>)>;

// The saving side behind its two queues.
struct Saver {
    worker: SaveWorker,
    save_in: Receiver<Msg>,
    save_out: Sender<Buffer>,
    disk: Disk,
}

// Takes up to `most` requests that are waiting.
fn pump(saver: &mut Saver, most: usize) {
    for _ in 0..most {
        if !saver.worker.is_running() {
            return;
        }
        let msg = match saver.save_in.try_recv() {
            Ok(msg) => msg,
            Err(_) => return,
        };
        assert!(saver.worker.num_images() < usize::MAX - saver.worker.queued());
        for job in saver.worker.handle(msg) {
            saver.disk.push((job.path.clone(), job.buffer.dims(), job.buffer.pixels().clone()));
            saver.save_out.send(job.buffer).ok();
        }
        if !saver.worker.is_running() {
            saver.worker.finish();
        }
    }
}

// One rendered frame on the capturing side. Where the capturing side would
// wait for a buffer, the saving side gets its turn.
fn frame(
    shots: &mut Shots,
    images_in: &Receiver<Buffer>,
    images_out: &Sender<Msg>,
    saver: &mut Saver,
    tag: u8,
) -> bool {
    while let Ok(image) = images_in.try_recv() {
        shots.recycle(image);
    }
    while shots.needs_buffer() && saver.worker.is_running() {
        pump(saver, 1);
        if let Ok(image) = images_in.try_recv() {
            shots.recycle(image);
        }
    }
    let before = shots.num_shots();
    let sent = if shots.will_capture() {
        shots.capture((2, 1), &[tag; 8])
    } else {
        shots.capture((2, 1), &[])
    };
    if let Some(msg) = sent {
        images_out.send(msg).ok();
    }
    shots.num_shots() < before
}

fn set_up() -> (Shots, Receiver<Buffer>, Sender<Msg>, Saver) {
    let shots = Shots::new((2, 1), "base").unwrap();
    let (save_out, images_in) = channel();
    let (images_out, save_in) = channel();
    let saver = Saver { worker: SaveWorker::new(shots.writer()), save_in, save_out, disk: Vec::new() };
    (shots, images_in, images_out, saver)
}

#[test]
fn slow_saving_side_throttles_the_capturing_side() {
    let (mut shots, images_in, images_out, mut saver) = set_up();
    for _ in 0..40 {
        shots.take();
    }
    for tag in 0..40u8 {
        assert!(frame(&mut shots, &images_in, &images_out, &mut saver, tag));
        assert!(saver.disk.len() + 3 >= tag as usize + 1);
        assert!(saver.worker.queued() <= 2);
    }
    assert!(saver.disk.len() < 40);
    images_out.send(shots.flush()).ok();
    pump(&mut saver, usize::MAX);
    assert_eq!(saver.worker.state(), WorkerState::Stopped);
    assert_eq!(saver.worker.queued(), 0);
    assert_eq!(saver.disk.len(), 40);
    for (i, file) in saver.disk.iter().enumerate() {
        assert_eq!(file.0, format!("base/dist/screenshot{}.png", i + 1));
        assert_eq!(file.1, (2, 1));
        assert_eq!(file.2, vec![i as u8; 8]);
    }
}

#[test]
fn idle_flush_reaches_the_saving_side() {
    let (mut shots, images_in, images_out, mut saver) = set_up();
    shots.take();
    assert!(frame(&mut shots, &images_in, &images_out, &mut saver, 7));
    assert!(!frame(&mut shots, &images_in, &images_out, &mut saver, 8));
    assert!(!frame(&mut shots, &images_in, &images_out, &mut saver, 9));
    pump(&mut saver, usize::MAX);
    assert_eq!(saver.disk.len(), 1);
    assert_eq!(saver.disk[0].0, "base/dist/screenshot1.png");
    let back = images_in.try_recv().unwrap();
    assert_eq!(back.pixels().as_slice(), &[7; 8]);
    shots.recycle(back);
    assert_eq!(shots.free_buffers(), 3);
    images_out.send(shots.flush()).ok();
    pump(&mut saver, usize::MAX);
    assert_eq!(saver.worker.state(), WorkerState::Stopped);
    assert_eq!(saver.disk.len(), 1);
}

#[test]
fn requests_after_the_saving_side_ended_are_dropped() {
    let (mut shots, images_in, images_out, mut saver) = set_up();
    images_out.send(Msg::Kill).ok();
    pump(&mut saver, usize::MAX);
    assert_eq!(saver.worker.state(), WorkerState::Stopped);
    for _ in 0..5 {
        shots.take();
    }
    let captured: Vec<bool> = (0..5u8)
        .map(|tag| frame(&mut shots, &images_in, &images_out, &mut saver, tag))
        .collect();
    assert_eq!(captured, vec![true, true, true, false, false]);
    assert_eq!(shots.num_shots(), 2);
    assert_eq!(shots.free_buffers(), 0);
    drop(saver);
    assert!(images_out.send(Msg::Flush).is_err());
    assert!(images_in.try_recv().is_err());
}
