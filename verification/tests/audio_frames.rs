use std::sync::atomic::{AtomicU64, Ordering};
use std::sync::mpsc::{sync_channel, TryRecvError};
use std::sync::Arc;
use voice_orders::audio::frames::{FrameAssembler, Handover};
use voice_orders::recognition::AudioMsg;

fn assembler(frame_len: usize, capacity: usize) -> (FrameAssembler, Harness) {
    let (tx, rx) = sync_channel(capacity);
    let dropped = Arc::new(AtomicU64::new(0));

    (
        FrameAssembler::new(frame_len, tx, dropped.clone()),
        Harness { rx, dropped },
    )
}

struct Harness {
    rx: std::sync::mpsc::Receiver<AudioMsg>,
    dropped: Arc<AtomicU64>,
}

impl Harness {
    fn frames(&self) -> Vec<Vec<i16>> {
        let mut out = Vec::new();
        loop {
            match self.rx.try_recv() {
                Ok(AudioMsg::Frame(frame)) => out.push(frame),
                Ok(AudioMsg::Reset | AudioMsg::Clear) => {
                    panic!("the assembler must never send a control message")
                }
                Err(TryRecvError::Empty) | Err(TryRecvError::Disconnected) => return out,
            }
        }
    }

    fn dropped(&self) -> u64 {
        self.dropped.load(Ordering::Relaxed)
    }
}

#[test]
fn a_partial_frame_is_not_sent() {
    let (mut assembler, harness) = assembler(4, 8);
    assembler.push(&[1, 2, 3]);

    assert!(harness.frames().is_empty());
    assert_eq!(harness.dropped(), 0);
}

#[test]
fn a_full_frame_is_sent() {
    let (mut assembler, harness) = assembler(4, 8);
    assembler.push(&[1, 2, 3, 4]);

    assert_eq!(harness.frames(), vec![vec![1, 2, 3, 4]]);
}

#[test]
fn frames_accumulate_across_pushes() {
    let (mut assembler, harness) = assembler(4, 8);
    assembler.push(&[1, 2]);
    assembler.push(&[3]);
    assembler.push(&[4, 5, 6]);

    assert_eq!(harness.frames(), vec![vec![1, 2, 3, 4]]);
}

#[test]
fn a_single_push_can_produce_several_frames() {
    let (mut assembler, harness) = assembler(2, 8);
    assembler.push(&[1, 2, 3, 4, 5, 6, 7]);

    assert_eq!(
        harness.frames(),
        vec![vec![1, 2], vec![3, 4], vec![5, 6]],
        "the trailing sample stays buffered"
    );
}

#[test]
fn a_full_channel_drops_the_new_frame_and_counts_it() {
    let (mut assembler, harness) = assembler(2, 2);

    // Two frames fit in the channel; the third and fourth do not.
    assembler.push(&[1, 2, 3, 4, 5, 6, 7, 8]);

    assert_eq!(harness.dropped(), 2);
    assert_eq!(
        harness.frames(),
        vec![vec![1, 2], vec![3, 4]],
        "the frames already queued are the *older* ones"
    );
}

#[test]
fn draining_the_channel_lets_capture_resume() {
    let (mut assembler, harness) = assembler(2, 1);

    assembler.push(&[1, 2, 3, 4]);
    assert_eq!(harness.dropped(), 1);
    assert_eq!(harness.frames(), vec![vec![1, 2]]);

    assembler.push(&[5, 6]);
    assert_eq!(harness.dropped(), 1);
    assert_eq!(harness.frames(), vec![vec![5, 6]]);
}

#[test]
fn resetting_discards_the_partial_frame() {
    let (mut assembler, harness) = assembler(4, 8);

    assembler.push(&[1, 2, 3]);
    assembler.reset();
    assembler.push(&[9, 9, 9, 9]);

    assert_eq!(harness.frames(), vec![vec![9, 9, 9, 9]]);
}

#[test]
fn a_disconnected_channel_stops_the_assembler() {
    let (mut assembler, harness) = assembler(2, 4);
    drop(harness);

    assembler.push(&[1, 2]);
    assert!(assembler.is_closed());

    // Subsequent pushes are cheap no-ops rather than repeated failures.
    assembler.push(&[3, 4, 5, 6]);
    assert!(assembler.is_closed());
}

#[test]
fn a_zero_length_frame_is_clamped_to_one_sample() {
    let (mut assembler, harness) = assembler(0, 4);
    assert_eq!(assembler.frame_len(), 1);

    assembler.push(&[42]);
    assert_eq!(harness.frames(), vec![vec![42]]);
}

#[test]
fn chunking_plays_no_part_in_the_framing() {
    let samples: Vec<i16> = (0..23).collect();

    let (mut at_once, expected) = assembler(5, 16);
    at_once.push(&samples);
    let (mut in_pieces, harness) = assembler(5, 16);
    for piece in samples.chunks(3) {
        in_pieces.push(piece);
    }

    let frames = harness.frames();
    assert_eq!(frames, expected.frames());
    assert!(frames.iter().all(|frame| frame.len() == 5));
}

#[test]
fn what_became_of_a_frame_decides_what_happens_next() {
    let (mut assembler, harness) = assembler(4, 1);

    assembler.settle(Handover::Accepted);
    assert!(!assembler.is_closed());
    assert_eq!(harness.dropped(), 0);

    assembler.settle(Handover::Full);
    assert!(!assembler.is_closed());
    assert_eq!(harness.dropped(), 1);

    assembler.settle(Handover::Gone);
    assert!(assembler.is_closed());
    assert_eq!(harness.dropped(), 1);
}
