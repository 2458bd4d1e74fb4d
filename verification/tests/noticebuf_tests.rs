use scrutin::noticebuf::NoticeBuffer;

#[test]
fn drain_all_returns_pushes_in_order_and_empties() {
    let mut b = NoticeBuffer::new();
    for m in ["a", "b", "c", "d"] {
        b.push(m.to_string());
    }
    assert_eq!(b.drain_all(), vec!["a", "b", "c", "d"]);
    assert!(b.drain_all().is_empty());
}
