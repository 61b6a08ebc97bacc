use raw_reader::segment::{Segment, MAX_BITMAP_LEN};

#[test]
fn segment_answers_for_the_sectors_it_records() {
    let segment = Segment::new(2, vec![0x11]).unwrap();
    assert_eq!(segment.start(), 2);
    assert_eq!(segment.bit_count(), 8);
    assert_eq!(segment.end(), 10);
    assert!(!segment.is_to_eof());
    assert_eq!(segment.covers(1), None);
    assert_eq!(segment.covers(2), Some(true));
    assert_eq!(segment.covers(3), Some(false));
    assert_eq!(segment.covers(6), Some(true));
    assert_eq!(segment.covers(9), Some(false));
    assert_eq!(segment.covers(10), None);
}

#[test]
fn lowest_bit_of_a_byte_is_its_lowest_sector() {
    let segment = Segment::new(16, vec![0x01, 0x80]).unwrap();
    assert_eq!(segment.covers(16), Some(true));
    assert_eq!(segment.covers(17), Some(false));
    assert_eq!(segment.covers(30), Some(false));
    assert_eq!(segment.covers(31), Some(true));
}

#[test]
fn terminal_segment_ends_with_the_device() {
    let segment = Segment::to_end(2, vec![0x11], 8).unwrap();
    assert!(segment.is_to_eof());
    assert_eq!(segment.bit_count(), 6);
    assert_eq!(segment.covers(6), Some(true));
    assert_eq!(segment.covers(7), Some(false));
    assert_eq!(segment.covers(8), None);
}

#[test]
fn terminal_segment_needs_the_bits_of_what_is_left() {
    assert!(Segment::to_end(2, vec![0x11, 0x00], 8).is_none());
    assert!(Segment::to_end(2, vec![], 8).is_none());
    assert!(Segment::to_end(9, vec![], 8).is_none());
    assert!(Segment::to_end(8, vec![], 8).is_some());
    assert!(Segment::to_end(0, vec![0; 2], 9).is_some());
}

#[test]
fn bitmap_length_must_fit_three_bytes() {
    assert!(Segment::new(0, vec![0; MAX_BITMAP_LEN]).is_some());
    assert!(Segment::new(0, vec![0; MAX_BITMAP_LEN + 1]).is_none());
    assert!(Segment::new(u64::MAX - 7, vec![0]).is_none());
    assert!(Segment::new(u64::MAX - 8, vec![0]).is_some());
}
