use scrutin::logbuf::LogBuffer;

#[test]
fn push_and_snapshot_round_trip() {
    let mut buf = LogBuffer::new();
    buf.push("worker", "hello");
    buf.push("worker", "world");
    let snap = buf.snapshot();
    assert_eq!(snap, vec!["[worker] hello", "[worker] world"]);
}

#[test]
fn empty_lines_are_dropped() {
    let mut buf = LogBuffer::new();
    buf.push("w", "");
    buf.push("w", "\n");
    buf.push("w", "\r\n");
    assert_eq!(buf.len(), 0);
}

#[test]
fn trailing_newline_stripped() {
    let mut buf = LogBuffer::new();
    buf.push("w", "line\n");
    buf.push("w", "line\r\n");
    assert_eq!(buf.snapshot(), vec!["[w] line", "[w] line"]);
}

#[test]
fn dropped_counter_tracks_evictions() {
    let mut buf = LogBuffer::with_capacity(3);
    for i in 0..5 {
        buf.push("w", &format!("line {i}"));
    }
    assert_eq!(buf.len(), 3);
    assert_eq!(buf.dropped(), 2);
    assert_eq!(buf.snapshot(), vec!["[w] line 2", "[w] line 3", "[w] line 4"]);
}

#[test]
fn push_beyond_capacity_keeps_held_plus_dropped_equal_to_accepted() {
    let mut buf = LogBuffer::with_capacity(2);
    for i in 0..7 {
        buf.push("w", &format!("{i}"));
        assert!(buf.len() <= 2);
        assert_eq!(buf.len() as u64 + buf.dropped(), (i + 1) as u64);
    }
    assert!(!buf.is_empty());
}

#[test]
fn notice_buffer_drains_in_order_and_empties() {
    let mut n = scrutin::noticebuf::NoticeBuffer::new();
    n.push("a".to_string());
    n.push("b".to_string());
    assert_eq!(n.drain_all(), vec!["a", "b"]);
    assert!(n.drain_all().is_empty());
}

#[test]
fn push_strips_every_trailing_line_break() {
    let mut buf = LogBuffer::with_capacity(4);
    buf.push("s", "x\n\r");
    buf.push("s", "y\r\n\n\r");
    buf.push("s", "\n\r\n");
    assert_eq!(buf.snapshot(), vec!["[s] x".to_string(), "[s] y".to_string()]);
}

#[test]
fn dropped_counts_evictions_over_many_pushes() {
    let mut buf = LogBuffer::with_capacity(3);
    for i in 0..5 {
        buf.push("w", &format!("line {i}"));
    }
    buf.push("w", "\n");
    assert_eq!(buf.dropped(), 2);
    assert_eq!(buf.len(), 3);
}
