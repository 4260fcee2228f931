use soft_ratatui::RedrawSet;

#[test]
fn insert_keeps_order_and_deduplicates() {
    let mut s = RedrawSet::new();
    assert_eq!(s.len(), 0);
    s.insert((3, 4));
    s.insert((1, 2));
    s.insert((3, 4));
    assert_eq!(s.len(), 2);
    assert_eq!(s.get(0), (3, 4));
    assert_eq!(s.get(1), (1, 2));
    assert!(s.contains((1, 2)));
    assert!(!s.contains((2, 1)));
}
