use running_text::{EscapedText, RunIndex};

#[test]
fn a_cursor_walks_forward_by_units() {
    let text = EscapedText::from_text("añ&b".to_owned()).apply_rule("&", "&amp;").unwrap();
    let (s, left, right) = text.parts();
    assert_eq!(s, "añ&amp;b");
    let mut cursor = RunIndex::new(s, 0, left, right);
    assert_eq!(cursor.peek(), 0);
    assert_eq!(cursor.next(), Some(0));
    assert_eq!(cursor.next(), Some(1));
    assert_eq!(cursor.next(), Some(3));
    assert_eq!(cursor.peek(), 8);
    assert_eq!(cursor.next(), Some(8));
    assert_eq!(cursor.peek(), 9);
    // at the end the cursor hands out where it stands, and finds that it cannot go on
    assert_eq!(cursor.next(), Some(9));
    assert_eq!(cursor.next(), None);
    assert_eq!(cursor.next_back(), None);
    assert_eq!(cursor.peek(), 9);
}

#[test]
fn a_cursor_walks_backward_by_units() {
    let text = EscapedText::from_text("añ&b".to_owned()).apply_rule("&", "&amp;").unwrap();
    let (s, left, right) = text.parts();
    let mut cursor = RunIndex::new(s, s.len(), left, right);
    assert_eq!(cursor.next_back(), Some(9));
    assert_eq!(cursor.next_back(), Some(8));
    assert_eq!(cursor.next_back(), Some(3));
    assert_eq!(cursor.next_back(), Some(1));
    assert_eq!(cursor.peek(), 0);
    assert_eq!(cursor.next_back(), Some(0));
    assert_eq!(cursor.next_back(), None);
    assert_eq!(cursor.next(), None);
}

#[test]
fn a_cursor_turns_round() {
    let text = EscapedText::from_text("a😀b".to_owned());
    let (s, left, right) = text.parts();
    let mut cursor = RunIndex::new(s, 1, left, right);
    assert_eq!(cursor.next(), Some(1));
    assert_eq!(cursor.peek(), 5);
    assert_eq!(cursor.next_back(), Some(5));
    assert_eq!(cursor.peek(), 1);
    let copy = cursor;
    assert_eq!(copy.peek(), 1);
}

#[test]
fn a_cursor_on_the_empty_text() {
    let text = EscapedText::new();
    let (s, left, right) = text.parts();
    let mut cursor = RunIndex::new(s, 0, left, right);
    assert_eq!(cursor.next(), Some(0));
    assert_eq!(cursor.next(), None);
}
