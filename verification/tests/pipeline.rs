use raw_reader::pipeline::{worker_range, Buffer, Handoff};

fn assert_exclusive(handoff: &Handoff) {
    for buffer in [Buffer::First, Buffer::Second] {
        assert!(!(handoff.is_written(buffer) && handoff.readers(buffer) > 0));
    }
}

#[test]
fn fill_and_classify_alternate_between_the_buffers() {
    let mut handoff = Handoff::new(3);
    assert_eq!(handoff.staging(), Buffer::First);
    assert_eq!(handoff.worker(), Buffer::Second);

    assert_eq!(handoff.begin_fill(), Some(Buffer::First));
    assert!(handoff.is_written(Buffer::First));
    assert!(handoff.end_fill());
    assert_eq!(handoff.swap(), Some(Buffer::First));
    assert_eq!(handoff.staging(), Buffer::Second);
    assert_eq!(handoff.readers(Buffer::First), 3);

    assert_eq!(handoff.begin_fill(), Some(Buffer::Second));
    assert_exclusive(&handoff);
    assert!(handoff.end_pass());
    assert!(handoff.end_pass());
    assert!(handoff.end_fill());
    assert_eq!(handoff.swap(), None);
    assert!(handoff.end_pass());
    assert!(!handoff.end_pass());
    assert_eq!(handoff.swap(), Some(Buffer::Second));
    assert_eq!(handoff.staging(), Buffer::First);
    assert_eq!(handoff.readers(Buffer::Second), 3);
    assert_eq!(handoff.readers(Buffer::First), 0);
}

#[test]
fn swap_waits_for_the_fill_and_for_every_worker() {
    let mut handoff = Handoff::new(2);
    assert_eq!(handoff.swap(), None);
    assert!(!handoff.end_fill());
    assert!(!handoff.end_pass());
    assert_eq!(handoff.begin_fill(), Some(Buffer::First));
    assert_eq!(handoff.begin_fill(), None);
    assert_eq!(handoff.swap(), None);
    assert!(handoff.end_fill());
    assert_eq!(handoff.begin_fill(), None);
    assert_eq!(handoff.swap(), Some(Buffer::First));
    assert_eq!(handoff.begin_fill(), Some(Buffer::Second));
    assert!(handoff.end_fill());
    assert_eq!(handoff.swap(), None);
    assert!(handoff.end_pass());
    assert_eq!(handoff.swap(), None);
    assert!(handoff.end_pass());
    assert_eq!(handoff.swap(), Some(Buffer::Second));
}

#[test]
fn no_buffer_is_read_and_written_at_once() {
    let mut handoff = Handoff::new(4);
    let mut state: u32 = 99;
    let mut write_epochs = [0u32; 2];
    let mut read_epochs = [0u32; 2];
    let mut swaps = 0;
    for _ in 0..10_000 {
        state = state.wrapping_mul(1664525).wrapping_add(1013904223);
        match (state >> 24) % 4 {
            0 => {
                if let Some(buffer) = handoff.begin_fill() {
                    assert_eq!(handoff.readers(buffer), 0);
                    write_epochs[buffer as usize] += 1;
                }
            }
            1 => {
                handoff.end_fill();
            }
            2 => {
                if let Some(buffer) = handoff.swap() {
                    assert!(!handoff.is_written(buffer));
                    read_epochs[buffer as usize] += 1;
                    assert_eq!(read_epochs[buffer as usize], write_epochs[buffer as usize]);
                    swaps += 1;
                }
            }
            _ => {
                handoff.end_pass();
            }
        }
        assert_exclusive(&handoff);
        assert_eq!(handoff.readers(handoff.staging()), 0);
    }
    assert!(swaps > 100);
}

#[test]
fn workers_share_the_sectors_in_order_and_without_a_gap() {
    assert_eq!(worker_range(10, 3, 0), (0, 4));
    assert_eq!(worker_range(10, 3, 1), (4, 4));
    assert_eq!(worker_range(10, 3, 2), (8, 2));
    assert_eq!(worker_range(2, 4, 0), (0, 1));
    assert_eq!(worker_range(2, 4, 1), (1, 1));
    assert_eq!(worker_range(2, 4, 2), (2, 0));
    assert_eq!(worker_range(2, 4, 3), (2, 0));
    assert_eq!(worker_range(0, 2, 1), (0, 0));
    assert_eq!(worker_range(usize::MAX, 2, 1), (usize::MAX / 2 + 1, usize::MAX / 2));
    for sectors in 0..40 {
        for workers in 1..9 {
            let mut next = 0;
            for worker in 0..workers {
                let (first, count) = worker_range(sectors, workers, worker);
                assert_eq!(first, next);
                next = first + count;
            }
            assert_eq!(next, sectors);
        }
    }
}
