use rush::history::History;

#[test]
fn empty_history_has_no_line() {
    let mut h = History::new();
    assert_eq!(h.get_line(), None);
    h.previous();
    assert_eq!(h.get_line(), None);
    h.next();
    assert_eq!(h.get_line(), None);
}

#[test]
fn cursor_walks_the_lines() {
    let mut h = History::new();
    h.push("one".to_string());
    h.push("two".to_string());
    assert_eq!(h.get_line(), None);
    h.previous();
    assert_eq!(h.get_line(), Some("two"));
    h.previous();
    assert_eq!(h.get_line(), Some("one"));
    h.previous();
    assert_eq!(h.get_line(), Some("one"));
    h.next();
    assert_eq!(h.get_line(), Some("two"));
    h.next();
    assert_eq!(h.get_line(), None);
    h.next();
    assert_eq!(h.get_line(), None);
}

#[test]
fn push_moves_the_cursor_past_the_newest() {
    let mut h = History::new();
    h.push("one".to_string());
    h.previous();
    assert_eq!(h.get_line(), Some("one"));
    h.push("two".to_string());
    assert_eq!(h.get_line(), None);
    h.previous();
    assert_eq!(h.get_line(), Some("two"));
}
