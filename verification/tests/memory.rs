//! The composed address space: segment membership, request splitting,
//! round trips, and whole-request failure.

use ublk_vram::local::memory::LOBuffer;
use ublk_vram::{VBuffer, VError, VMemory};

fn segments(sizes: &[usize]) -> Vec<LOBuffer> {
    let mut v = Vec::new();
    for &s in sizes {
        v.push(LOBuffer::new(s).unwrap());
    }
    v
}

fn pattern(len: usize, seed: u8) -> Vec<u8> {
    let mut v = Vec::with_capacity(len);
    for i in 0..len {
        v.push((seed as usize).wrapping_add(i.wrapping_mul(31)) as u8);
    }
    v
}

#[test]
fn total_size_is_sum_of_segment_lengths() {
    let m = VMemory::new(segments(&[100, 50, 200]));
    assert_eq!(m.size(), 350);
    assert_eq!(m.blocks(), 3);

    let empty: Vec<LOBuffer> = Vec::new();
    let m0 = VMemory::new(empty);
    assert_eq!(m0.size(), 0);
    assert_eq!(m0.blocks(), 0);
}

#[test]
fn exactly_one_segment_holds_each_offset() {
    let sizes: [usize; 3] = [100, 50, 200];
    let bases: [u64; 3] = [0, 100, 150];
    let mut segs = Vec::new();
    for k in 0..3 {
        let mut b = LOBuffer::new(sizes[k]).unwrap();
        b.offset(bases[k]);
        segs.push(b);
    }
    for o in 0u64..350 {
        let mut hits: usize = 0;
        for k in 0..3 {
            if let Some(rem) = segs[k].remaining(o) {
                hits += 1;
                assert_eq!(rem as u64, sizes[k] as u64 - (o - bases[k]));
                assert!(segs[k].within(o));
            } else {
                assert!(!segs[k].within(o));
            }
        }
        assert_eq!(hits, 1, "offset {} held by {} segments", o, hits);
    }
    for k in 0..3 {
        assert!(segs[k].remaining(350).is_none());
    }
}

#[test]
fn round_trip_within_one_segment() {
    let mut m = VMemory::new(segments(&[100, 50, 200]));
    let data = pattern(30, 7);
    assert_eq!(m.write(10, 30, &data), 30);
    let mut out = vec![0u8; 30];
    assert_eq!(m.read(10, 30, &mut out), 30);
    assert_eq!(out, data);
}

#[test]
fn round_trip_crossing_two_segments() {
    let mut m = VMemory::new(segments(&[100, 50, 200]));
    let data = pattern(40, 3);
    assert_eq!(m.write(80, 40, &data), 40);
    let mut out = vec![0u8; 40];
    assert_eq!(m.read(80, 40, &mut out), 40);
    assert_eq!(out, data);
}

#[test]
fn round_trip_whole_space() {
    let mut m = VMemory::new(segments(&[100, 50, 200]));
    let data = pattern(350, 11);
    assert_eq!(m.write(0, 350, &data), 350);
    let mut out = vec![0u8; 350];
    assert_eq!(m.read(0, 350, &mut out), 350);
    assert_eq!(out, data);
}

#[test]
fn read_spans_a_boundary_byte_for_byte() {
    let mut m = VMemory::new(segments(&[100, 50, 200]));
    let data = pattern(350, 19);
    assert_eq!(m.write(0, 350, &data), 350);
    // 80 bytes at offset 90: the last 10 bytes of segment 0 followed by the
    // first 70 bytes of segment 1, exactly as one monolithic buffer would
    // give them
    let mut out = vec![0u8; 80];
    assert_eq!(m.read(90, 80, &mut out), 80);
    assert_eq!(&out[..], &data[90..170]);
}

#[test]
fn write_at_last_byte_succeeds_one_past_fails() {
    let mut m = VMemory::new(segments(&[100, 50, 200]));
    let before = pattern(350, 23);
    assert_eq!(m.write(0, 350, &before), 350);

    assert_eq!(m.write(349, 1, &vec![0xAB]), 1);
    let mut one = vec![0u8; 1];
    assert_eq!(m.read(349, 1, &mut one), 1);
    assert_eq!(one[0], 0xAB);

    // two bytes at 349 run past the end: the whole request fails and no byte
    // moves
    let r = m.write(349, 2, &vec![0xCD, 0xEF]);
    assert_eq!(r, -ublk_vram::EIO);
    let mut all = vec![0u8; 350];
    assert_eq!(m.read(0, 350, &mut all), 350);
    assert_eq!(&all[..349], &before[..349]);
    assert_eq!(all[349], 0xAB);
}

#[test]
fn out_of_range_write_mutates_nothing() {
    let mut m = VMemory::new(segments(&[100, 50, 200]));
    let before = pattern(350, 29);
    assert_eq!(m.write(0, 350, &before), 350);

    assert_eq!(m.write(300, 100, &pattern(100, 31)), -ublk_vram::EIO);
    assert_eq!(m.write(350, 1, &vec![1]), -ublk_vram::EIO);
    assert_eq!(m.write(1000, 4, &pattern(4, 5)), -ublk_vram::EIO);

    let mut all = vec![0u8; 350];
    assert_eq!(m.read(0, 350, &mut all), 350);
    assert_eq!(all, before);
}

#[test]
fn out_of_range_read_leaves_buffer_untouched() {
    let m = VMemory::new(segments(&[100, 50, 200]));
    let mut out = pattern(64, 41);
    let before = out.clone();
    assert_eq!(m.read(340, 20, &mut out), -ublk_vram::EIO);
    assert_eq!(m.read(350, 1, &mut out), -ublk_vram::EIO);
    assert_eq!(out, before);
}

#[test]
fn zero_length_requests_succeed() {
    let mut m = VMemory::new(segments(&[100, 50, 200]));
    let mut out: Vec<u8> = Vec::new();
    assert_eq!(m.read(0, 0, &mut out), 0);
    assert_eq!(m.read(350, 0, &mut out), 0);
    assert_eq!(m.write(120, 0, &Vec::new()), 0);
}

#[test]
fn segment_read_write_errors() {
    let mut b = LOBuffer::new(10).unwrap();
    b.offset(100);
    let mut out = vec![0u8; 10];

    assert_eq!(b.read(50, &mut out, 0, 1), Err(VError::OutOfBuffer));
    assert_eq!(b.read(110, &mut out, 0, 1), Err(VError::OutOfBuffer));
    assert_eq!(b.read(105, &mut out, 0, 6), Err(VError::PastEnd));
    assert_eq!(b.read(105, &mut out, 0, 5), Ok(()));

    assert_eq!(b.write(99, &out, 0, 1), Err(VError::OutOfBuffer));
    assert_eq!(b.write(108, &out, 0, 3), Err(VError::PastEnd));
    assert_eq!(b.write(108, &out, 0, 2), Ok(()));
    assert_eq!(b.size(), 10);
}

#[test]
fn segment_read_fills_the_requested_window() {
    let mut b = LOBuffer::new(8).unwrap();
    let src = pattern(8, 47);
    assert_eq!(b.write(0, &src, 0, 8), Ok(()));
    let mut out = vec![0xFFu8; 12];
    assert_eq!(b.read(2, &mut out, 3, 4), Ok(()));
    assert_eq!(&out[3..7], &src[2..6]);
    assert_eq!(&out[..3], &[0xFF, 0xFF, 0xFF]);
    assert_eq!(&out[7..], &[0xFF, 0xFF, 0xFF, 0xFF, 0xFF]);
}

#[test]
fn allocate_splits_total_evenly() {
    let v = LOBuffer::allocate(1000, 4).unwrap();
    assert_eq!(v.len(), 4);
    let m = VMemory::new(v);
    assert_eq!(m.size(), 1000);
    assert_eq!(m.blocks(), 4);

    // a remainder of the division is not backed
    let v = LOBuffer::allocate(10, 3).unwrap();
    let m = VMemory::new(v);
    assert_eq!(m.size(), 9);
}

#[test]
fn writes_to_disjoint_segments_are_order_independent() {
    let da = pattern(60, 51);
    let db = pattern(120, 53);

    // segment 0 gets da at 20, segment 2 gets db at 180; in either order the
    // space ends up the same
    let mut m1 = VMemory::new(segments(&[100, 50, 200]));
    assert_eq!(m1.write(20, 60, &da), 60);
    assert_eq!(m1.write(180, 120, &db), 120);

    let mut m2 = VMemory::new(segments(&[100, 50, 200]));
    assert_eq!(m2.write(180, 120, &db), 120);
    assert_eq!(m2.write(20, 60, &da), 60);

    let mut o1 = vec![0u8; 350];
    let mut o2 = vec![0u8; 350];
    assert_eq!(m1.read(0, 350, &mut o1), 350);
    assert_eq!(m2.read(0, 350, &mut o2), 350);
    assert_eq!(o1, o2);
}

#[test]
fn new_buffers_read_as_zero() {
    let m = VMemory::new(segments(&[100, 50, 200]));
    let mut out = vec![0xFFu8; 350];
    assert_eq!(m.read(0, 350, &mut out), 350);
    assert!(out.iter().all(|&b| b == 0));
}
