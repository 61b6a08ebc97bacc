use raw_reader::error::IndexError;
use raw_reader::sector_map::SectorMap;
use raw_reader::segment::{Segment, MAX_BITMAP_LEN};

fn map_of(segments: Vec<Segment>) -> SectorMap {
    let mut map = SectorMap::new();
    for segment in segments {
        assert_eq!(map.append_segment(segment), Ok(()));
    }
    map
}

#[test]
fn empty_map_holds_no_occupied_sector() {
    let map = SectorMap::new();
    assert_eq!(map.len(), 0);
    assert!(!map.is_occupied(0));
    assert!(!map.is_occupied(u64::MAX));
    assert_eq!(map.next_occupied(0), None);
}

#[test]
fn sectors_between_segments_are_empty() {
    let map = map_of(vec![
        Segment::new(8, vec![0xff]).unwrap(),
        Segment::new(32, vec![0x01, 0x02]).unwrap(),
        Segment::new(100, vec![0x80]).unwrap(),
    ]);
    assert_eq!(map.len(), 3);
    for addr in 0..8 {
        assert!(!map.is_occupied(addr));
    }
    for addr in 8..16 {
        assert!(map.is_occupied(addr));
    }
    for addr in 16..32 {
        assert!(!map.is_occupied(addr));
    }
    assert!(map.is_occupied(32));
    assert!(!map.is_occupied(33));
    assert!(map.is_occupied(41));
    assert!(!map.is_occupied(48));
    assert!(map.is_occupied(107));
    assert!(!map.is_occupied(108));
    assert!(!map.is_occupied(u64::MAX));
}

#[test]
fn query_agrees_with_a_search_of_every_segment() {
    let segments = vec![
        Segment::new(3, vec![0xa5, 0x00, 0x3c]).unwrap(),
        Segment::new(40, vec![0x00]).unwrap(),
        Segment::new(64, vec![0x10, 0xf0]).unwrap(),
        Segment::to_end(90, vec![0x55, 0x03], 100).unwrap(),
    ];
    let map = map_of(segments.clone());
    for addr in 0..120 {
        let mut expected = false;
        for segment in &segments {
            if segment.covers(addr) == Some(true) {
                expected = true;
            }
        }
        assert_eq!(map.is_occupied(addr), expected);
    }
}

#[test]
fn next_occupied_walks_through_every_occupied_sector() {
    let map = map_of(vec![
        Segment::new(3, vec![0x81, 0x00, 0x01]).unwrap(),
        Segment::new(64, vec![0x00, 0x02]).unwrap(),
        Segment::to_end(90, vec![0x01, 0x02], 100).unwrap(),
    ]);
    let mut found = Vec::new();
    let mut from = 0;
    while let Some(addr) = map.next_occupied(from) {
        assert!(addr >= from);
        found.push(addr);
        from = addr + 1;
    }
    assert_eq!(found, vec![3, 10, 19, 73, 90, 99]);
    assert_eq!(map.next_occupied(100), None);
    assert_eq!(map.next_occupied(u64::MAX), None);
}

#[test]
fn next_occupied_starts_within_a_segment() {
    let map = map_of(vec![Segment::new(0, vec![0x00, 0x00, 0x05]).unwrap()]);
    assert_eq!(map.next_occupied(0), Some(16));
    assert_eq!(map.next_occupied(16), Some(16));
    assert_eq!(map.next_occupied(17), Some(18));
    assert_eq!(map.next_occupied(19), None);
}

#[test]
fn adjacent_segment_is_joined_onto_the_last() {
    let mut map = SectorMap::new();
    assert_eq!(map.append_segment(Segment::new(8, vec![0x01]).unwrap()), Ok(()));
    assert_eq!(map.append_segment(Segment::new(16, vec![0x02, 0x03]).unwrap()), Ok(()));
    assert_eq!(map.len(), 1);
    assert_eq!(*map.segment(0), Segment::new(8, vec![0x01, 0x02, 0x03]).unwrap());
    assert_eq!(map.append_segment(Segment::new(40, vec![0x04]).unwrap()), Ok(()));
    assert_eq!(map.len(), 2);
    assert_eq!(map.append_segment(Segment::to_end(48, vec![0x01], 50).unwrap()), Ok(()));
    assert_eq!(map.len(), 2);
    assert_eq!(*map.segment(1), Segment::to_end(40, vec![0x04, 0x01], 50).unwrap());
}

#[test]
fn adjacent_segments_stay_apart_when_joined_they_would_be_too_long() {
    let mut map = SectorMap::new();
    let long = Segment::new(0, vec![0x01; MAX_BITMAP_LEN]).unwrap();
    let end = long.end();
    assert_eq!(map.append_segment(long), Ok(()));
    assert_eq!(map.append_segment(Segment::new(end, vec![0x01]).unwrap()), Ok(()));
    assert_eq!(map.len(), 2);
    assert!(map.is_occupied(end));
    assert!(!map.is_occupied(end + 1));
}

#[test]
fn segment_that_overlaps_another_is_handed_back() {
    let mut map = map_of(vec![
        Segment::new(8, vec![0x01]).unwrap(),
        Segment::new(32, vec![0x01]).unwrap(),
    ]);
    let before = map.clone();
    for segment in [
        Segment::new(15, vec![0x01]).unwrap(),
        Segment::new(8, vec![0x01]).unwrap(),
        Segment::new(8, vec![]).unwrap(),
        Segment::new(0, vec![0x01, 0x01]).unwrap(),
        Segment::new(25, vec![0x01]).unwrap(),
        Segment::new(39, vec![0x01]).unwrap(),
        Segment::to_end(20, vec![0x01], 28).unwrap(),
    ] {
        assert_eq!(map.append_segment(segment.clone()), Err(segment));
        assert_eq!(map, before);
    }
    assert_eq!(map.append_segment(Segment::to_end(40, vec![0x01], 48).unwrap()), Ok(()));
    let behind_the_end = Segment::new(48, vec![0x01]).unwrap();
    assert_eq!(map.append_segment(behind_the_end.clone()), Err(behind_the_end));
    let within_the_end = Segment::new(44, vec![]).unwrap();
    assert_eq!(map.append_segment(within_the_end.clone()), Err(within_the_end));
}

#[test]
fn segment_is_put_in_at_its_place() {
    let mut map = map_of(vec![
        Segment::new(16, vec![0x01]).unwrap(),
        Segment::to_end(64, vec![0x02], 72).unwrap(),
    ]);
    assert_eq!(map.append_segment(Segment::new(40, vec![0x04]).unwrap()), Ok(()));
    assert_eq!(map.append_segment(Segment::new(0, vec![0x08]).unwrap()), Ok(()));
    assert_eq!(map.len(), 4);
    assert_eq!(*map.segment(0), Segment::new(0, vec![0x08]).unwrap());
    assert_eq!(*map.segment(1), Segment::new(16, vec![0x01]).unwrap());
    assert_eq!(*map.segment(2), Segment::new(40, vec![0x04]).unwrap());
    assert_eq!(*map.segment(3), Segment::to_end(64, vec![0x02], 72).unwrap());
    assert_eq!(map.append_segment(Segment::new(24, vec![0x10, 0x20]).unwrap()), Ok(()));
    assert_eq!(map.len(), 4);
    assert_eq!(*map.segment(1), Segment::new(16, vec![0x01, 0x10, 0x20]).unwrap());
    assert_eq!(*map.segment(2), Segment::new(40, vec![0x04]).unwrap());
    assert_eq!(map.append_segment(Segment::new(8, vec![0x40]).unwrap()), Ok(()));
    assert_eq!(map.len(), 4);
    assert_eq!(*map.segment(0), Segment::new(0, vec![0x08, 0x40]).unwrap());
    assert_eq!(*map.segment(1), Segment::new(16, vec![0x01, 0x10, 0x20]).unwrap());
    let occupied: Vec<u64> = (0..80).filter(|&addr| map.is_occupied(addr)).collect();
    assert_eq!(occupied, vec![3, 14, 16, 28, 37, 42, 65]);
}

#[test]
fn index_is_the_records_one_after_the_other() {
    let map = map_of(vec![
        Segment::new(2, vec![0x11]).unwrap(),
        Segment::new(0x4000_0000, vec![0xaa, 0xbb]).unwrap(),
        Segment::to_end(0x4000_0020, vec![0x03], 0x4000_0022).unwrap(),
    ]);
    assert_eq!(
        map.serialize(),
        Ok(vec![
            0x00, 0x00, 0x00, 0x02, 0x00, 0x00, 0x01, 0x11, 0x40, 0x40, 0x00, 0x00, 0x00, 0x00,
            0x00, 0x02, 0xaa, 0xbb, 0x40, 0x40, 0x00, 0x00, 0x20, 0xff, 0xff, 0xff, 0x03,
        ])
    );
    assert_eq!(SectorMap::new().serialize(), Ok(vec![]));
}

#[test]
fn index_of_a_start_past_the_largest_address_is_refused() {
    let map = map_of(vec![
        Segment::new(2, vec![0x11]).unwrap(),
        Segment::new(0x4000_0000_0000_0000, vec![0x01]).unwrap(),
    ]);
    assert_eq!(
        map.serialize(),
        Err(IndexError::AddressTooLarge { address: 0x4000_0000_0000_0000 })
    );
}

#[test]
fn reading_an_index_gives_the_map_back() {
    let map = map_of(vec![
        Segment::new(2, vec![0x11]).unwrap(),
        Segment::new(16, vec![]).unwrap(),
        Segment::new(24, vec![0xff, 0x00, 0x01]).unwrap(),
        Segment::new(48, vec![0x80]).unwrap(),
        Segment::to_end(0x1_0000_0000, vec![0x01, 0x02, 0x03], 0x1_0000_0013).unwrap(),
    ]);
    assert_eq!(map.len(), 4);
    let bytes = map.serialize().unwrap();
    assert_eq!(SectorMap::deserialize(&bytes, 0x1_0000_0013), Ok(map));
    assert_eq!(SectorMap::deserialize(&[], 0), Ok(SectorMap::new()));
}

#[test]
fn reading_keeps_adjacent_segments_apart() {
    let bytes = [
        0x00, 0x00, 0x00, 0x00, 0x00, 0x00, 0x01, 0x01, 0x00, 0x00, 0x00, 0x08, 0x00, 0x00, 0x01,
        0x02,
    ];
    let map = SectorMap::deserialize(&bytes, 16).unwrap();
    assert_eq!(map.len(), 2);
    assert_eq!(*map.segment(0), Segment::new(0, vec![0x01]).unwrap());
    assert_eq!(*map.segment(1), Segment::new(8, vec![0x02]).unwrap());
    assert_eq!(map.serialize(), Ok(bytes.to_vec()));
}

#[test]
fn index_that_ends_within_a_record_is_corrupt() {
    let corrupt_at = |offset: usize| Err(IndexError::CorruptIndex { record_offset: offset });
    assert_eq!(SectorMap::deserialize(&[0x00, 0x00], 64), corrupt_at(0));
    assert_eq!(SectorMap::deserialize(&[0x00, 0x00, 0x00, 0x02, 0x00, 0x00], 64), corrupt_at(0));
    assert_eq!(
        SectorMap::deserialize(&[0x00, 0x00, 0x00, 0x02, 0x00, 0x00, 0x02, 0x11], 64),
        corrupt_at(0)
    );
    assert_eq!(
        SectorMap::deserialize(
            &[0x00, 0x00, 0x00, 0x02, 0x00, 0x00, 0x01, 0x11, 0x00, 0x00, 0x00, 0x10, 0x00],
            64
        ),
        corrupt_at(8)
    );
}

#[test]
fn index_whose_starts_do_not_increase_is_corrupt() {
    let corrupt_at = |offset: usize| Err(IndexError::CorruptIndex { record_offset: offset });
    let same_start = [
        0x00, 0x00, 0x00, 0x08, 0x00, 0x00, 0x01, 0x01, 0x00, 0x00, 0x00, 0x08, 0x00, 0x00, 0x01,
        0x01,
    ];
    assert_eq!(SectorMap::deserialize(&same_start, 64), corrupt_at(8));
    let earlier_start = [
        0x00, 0x00, 0x00, 0x20, 0x00, 0x00, 0x01, 0x01, 0x00, 0x00, 0x00, 0x08, 0x00, 0x00, 0x01,
        0x01,
    ];
    assert_eq!(SectorMap::deserialize(&earlier_start, 64), corrupt_at(8));
    let overlapping = [
        0x00, 0x00, 0x00, 0x00, 0x00, 0x00, 0x01, 0x01, 0x00, 0x00, 0x00, 0x04, 0x00, 0x00, 0x01,
        0x01,
    ];
    assert_eq!(SectorMap::deserialize(&overlapping, 64), corrupt_at(8));
    let empty_segments_at_one_start = [
        0x00, 0x00, 0x00, 0x08, 0x00, 0x00, 0x00, 0x00, 0x00, 0x00, 0x08, 0x00, 0x00, 0x00,
    ];
    assert_eq!(SectorMap::deserialize(&empty_segments_at_one_start, 64), corrupt_at(7));
}

#[test]
fn terminal_record_must_be_the_last() {
    let corrupt_at = |offset: usize| Err(IndexError::CorruptIndex { record_offset: offset });
    let followed = [
        0x00, 0x00, 0x00, 0x00, 0xff, 0xff, 0xff, 0x01, 0x00, 0x00, 0x00, 0x10, 0x00, 0x00, 0x01,
        0x01,
    ];
    assert_eq!(SectorMap::deserialize(&followed, 8), corrupt_at(0));
    let cut_short = [0x00, 0x00, 0x00, 0x00, 0xff, 0xff, 0xff, 0x01];
    assert_eq!(SectorMap::deserialize(&cut_short, 9), corrupt_at(0));
    let past_the_device = [0x00, 0x00, 0x00, 0x09, 0xff, 0xff, 0xff];
    assert_eq!(SectorMap::deserialize(&past_the_device, 8), corrupt_at(0));
    let at_the_end = [0x00, 0x00, 0x00, 0x08, 0xff, 0xff, 0xff];
    assert_eq!(
        SectorMap::deserialize(&at_the_end, 8),
        Ok(map_of(vec![Segment::to_end(8, vec![], 8).unwrap()]))
    );
    let whole_device = [0x00, 0x00, 0x00, 0x00, 0xff, 0xff, 0xff, 0x01, 0x01];
    let map = SectorMap::deserialize(&whole_device, 9).unwrap();
    assert_eq!(map.len(), 1);
    assert!(map.segment(0).is_to_eof());
    assert_eq!(map.segment(0).bit_count(), 9);
    assert!(map.is_occupied(8));
}
