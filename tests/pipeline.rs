use streaming_stft::{column_polyline, ColumnQueue, ConfigError, Printer, SampleWindow, Segment, StreamingStft};

fn ramp(n: usize) -> Vec<i32> {
    (0..n as i32).collect()
}

#[test]
fn priming_then_one_column_per_hop() {
    let mut s = StreamingStft::<i32>::new(4, 2).unwrap();
    assert_eq!(s.ingest(&[1, 2]).len(), 0);
    let second = s.ingest(&[3, 4]);
    assert_eq!(second, vec![vec![1, 2, 3, 4]]);
    let third = s.ingest(&[5, 6]);
    assert_eq!(third, vec![vec![3, 4, 5, 6]]);
}

#[test]
fn silence_chunk_gives_three_columns() {
    let mut s = StreamingStft::<f32>::new(2048, 1024).unwrap();
    let frames = s.ingest(&vec![0.0f32; 4096]);
    assert_eq!(frames.len(), 3);
    assert_eq!(s.output_size(), 1025);
    for f in &frames {
        assert_eq!(f.len(), 2048);
        assert!(f.iter().all(|x| *x == 0.0));
    }
}

#[test]
fn chunking_does_not_change_frames() {
    let stream = ramp(23);
    let mut whole = StreamingStft::<i32>::new(6, 4).unwrap();
    let expected = whole.ingest(&stream);
    assert_eq!(expected.len(), 5);
    for sizes in [vec![1usize; 23], vec![5, 1, 17], vec![2, 3, 7, 11], vec![0, 23, 0]] {
        let mut s = StreamingStft::<i32>::new(6, 4).unwrap();
        let mut got = Vec::new();
        let mut at = 0;
        for n in sizes {
            got.extend(s.ingest(&stream[at..at + n]));
            at += n;
        }
        assert_eq!(got, expected);
    }
}

#[test]
fn frames_start_every_hop() {
    let mut s = StreamingStft::<i32>::new(4, 3).unwrap();
    let frames = s.ingest(&ramp(11));
    assert_eq!(frames, vec![vec![0, 1, 2, 3], vec![3, 4, 5, 6], vec![6, 7, 8, 9]]);
    assert!(s.ingest(&[11]).is_empty());
    assert_eq!(s.ingest(&[12]), vec![vec![9, 10, 11, 12]]);
}

#[test]
fn no_overlap_gives_one_column_per_window() {
    let mut s = StreamingStft::<i32>::new(2048, 2048).unwrap();
    let frames = s.ingest(&ramp(8192));
    assert_eq!(frames.len(), 4);
    for (k, f) in frames.iter().enumerate() {
        assert_eq!(f[0], (k * 2048) as i32);
        assert_eq!(f[2047], (k * 2048 + 2047) as i32);
    }
}

#[test]
fn overlap_doubles_the_column_rate() {
    let mut s = StreamingStft::<i32>::new(2048, 1024).unwrap();
    assert_eq!(s.ingest(&ramp(8192)).len(), 7);
    let mut t = StreamingStft::<i32>::new(8, 2).unwrap();
    assert_eq!(t.ingest(&ramp(24)).len(), 9);
}

#[test]
fn hop_equal_to_one_sample() {
    let mut s = StreamingStft::<i32>::new(1, 1).unwrap();
    assert_eq!(s.ingest(&[7, 8, 9]), vec![vec![7], vec![8], vec![9]]);
    assert_eq!(s.output_size(), 1);
    assert_eq!(s.window_size(), 1);
    assert_eq!(s.hop_size(), 1);
}

#[test]
fn invalid_geometry_is_refused() {
    assert_eq!(StreamingStft::<i32>::new(0, 0).err(), Some(ConfigError::EmptyWindow));
    assert_eq!(StreamingStft::<i32>::new(0, 1).err(), Some(ConfigError::EmptyWindow));
    assert_eq!(StreamingStft::<i32>::new(4, 0).err(), Some(ConfigError::ZeroHop));
    assert_eq!(StreamingStft::<i32>::new(4, 5).err(), Some(ConfigError::HopExceedsWindow));
    assert!(StreamingStft::<i32>::new(4, 4).is_ok());
}

#[test]
fn sample_window_append_snapshot_discard() {
    let mut w = SampleWindow::<i32>::new();
    w.append(&[1, 2, 3]);
    w.append(&[4]);
    assert_eq!(w.len(), 4);
    assert_eq!(w.snapshot(3), vec![1, 2, 3]);
    assert_eq!(w.len(), 4);
    w.discard(2);
    assert_eq!(w.snapshot(2), vec![3, 4]);
    w.discard(2);
    assert_eq!(w.len(), 0);
}

#[test]
fn full_queue_drops_newest_without_waiting() {
    let mut q = ColumnQueue::new(2);
    assert!(q.offer(vec![1]));
    assert!(q.offer(vec![2]));
    assert!(q.is_full());
    for _ in 0..1000 {
        assert!(!q.offer(vec![3]));
    }
    assert_eq!(q.len(), 2);
    assert_eq!(q.dropped(), 1000);
    assert_eq!(q.capacity(), 2);
    assert_eq!(q.poll(), Some(vec![1]));
    assert!(q.offer(vec![4]));
    assert_eq!(q.poll(), Some(vec![2]));
    assert_eq!(q.poll(), Some(vec![4]));
    assert_eq!(q.poll(), None);
}

#[test]
fn zero_capacity_queue_drops_everything() {
    let mut q = ColumnQueue::new(0);
    assert!(!q.offer(5u8));
    assert_eq!(q.poll(), None);
    assert_eq!(q.dropped(), 1);
}

#[test]
fn polyline_skips_flat_segments() {
    let levels = vec![0u32, 0, 10, 0, 0];
    let segs = column_polyline(&levels, 1024, 1024);
    assert_eq!(
        segs,
        vec![
            Segment { x1: 256, y1: 1024, x2: 512, y2: 1014 },
            Segment { x1: 512, y1: 1014, x2: 768, y2: 1024 },
        ]
    );
}

#[test]
fn polyline_spans_the_width() {
    let levels = vec![3u32, 1, 2, 5];
    let segs = column_polyline(&levels, 10, 100);
    assert_eq!(
        segs,
        vec![
            Segment { x1: 0, y1: 97, x2: 3, y2: 99 },
            Segment { x1: 3, y1: 99, x2: 6, y2: 98 },
            Segment { x1: 6, y1: 98, x2: 10, y2: 95 },
        ]
    );
    assert!(column_polyline(&vec![9u32], 10, 100).is_empty());
    assert!(column_polyline(&vec![], 10, 100).is_empty());
}

#[test]
fn printer_writes_decimal_line() {
    let p = Printer::new();
    assert_eq!(p.line(&[0, 7, 10, 65535]), b"0 7 10 65535 \n".to_vec());
    assert_eq!(p.line(&[]), b"\n".to_vec());
}
