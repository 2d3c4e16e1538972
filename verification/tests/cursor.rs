use lexer::cursor::Position;
use lexer::cursor::SmartIterator;

#[test]
fn new_cursor_stands_at_line_one_column_one() {
    let c = SmartIterator::new(String::from("ab"));
    assert_eq!(c.pos(), (1, 1));
    assert_eq!(c.prev_pos(), (1, 0));
    assert_eq!(c.see(), Some('a'));
}

#[test]
fn see_does_not_consume() {
    let c = SmartIterator::new(String::from("xy"));
    assert_eq!(c.see(), Some('x'));
    assert_eq!(c.see(), Some('x'));
    assert_eq!(c.pos(), (1, 1));
}

#[test]
fn next_moves_one_column_on() {
    let mut c = SmartIterator::new(String::from("ab"));
    assert_eq!(c.next(), Some('a'));
    assert_eq!(c.pos(), (1, 2));
    assert_eq!(c.prev_pos(), (1, 1));
    assert_eq!(c.next(), Some('b'));
    assert_eq!(c.pos(), (1, 3));
    assert_eq!(c.prev_pos(), (1, 2));
}

#[test]
fn newline_opens_the_next_line() {
    let mut c = SmartIterator::new(String::from("a\nb"));
    assert_eq!(c.next(), Some('a'));
    assert_eq!(c.next(), Some('\n'));
    assert_eq!(c.pos(), (2, 1));
    assert_eq!(c.prev_pos(), (1, 2));
    assert_eq!(c.next(), Some('b'));
    assert_eq!(c.pos(), (2, 2));
    assert_eq!(c.prev_pos(), (2, 1));
}

#[test]
fn next_at_end_changes_nothing() {
    let mut c = SmartIterator::new(String::from("a"));
    assert_eq!(c.next(), Some('a'));
    assert_eq!(c.next(), None);
    assert_eq!(c.see(), None);
    assert_eq!(c.pos(), (1, 2));
    assert_eq!(c.prev_pos(), (1, 1));
    assert_eq!(c.next(), None);
    assert_eq!(c.pos(), (1, 2));
}

#[test]
fn empty_input_has_nothing_to_see() {
    let mut c = SmartIterator::new(String::new());
    assert_eq!(c.see(), None);
    assert_eq!(c.next(), None);
    assert_eq!(c.pos(), (1, 1));
}

#[test]
fn save_pos_captures_all_three() {
    let mut c = SmartIterator::new(String::from("a\nbc"));
    c.next();
    c.next();
    c.next();
    let m = c.save_pos();
    assert_eq!(m.ind, 3);
    assert_eq!(m.pos, (2, 2));
    assert_eq!(m.prev_pos, (2, 1));
}

#[test]
fn load_pos_rolls_back_index_and_places() {
    let mut c = SmartIterator::new(String::from("ab\ncd"));
    c.next();
    let m = c.save_pos();
    c.next();
    c.next();
    c.next();
    assert_eq!(c.pos(), (2, 2));
    c.load_pos(m);
    assert_eq!(c.pos(), (1, 2));
    assert_eq!(c.prev_pos(), (1, 1));
    assert_eq!(c.see(), Some('b'));
    assert_eq!(c.next(), Some('b'));
    assert_eq!(c.next(), Some('\n'));
    assert_eq!(c.pos(), (2, 1));
}

#[test]
fn load_pos_takes_the_values_of_the_mark() {
    let mut c = SmartIterator::new(String::from("abc"));
    c.load_pos(Position { ind: 2, pos: (1, 3), prev_pos: (1, 2) });
    assert_eq!(c.see(), Some('c'));
    assert_eq!(c.pos(), (1, 3));
    assert_eq!(c.prev_pos(), (1, 2));
}

#[test]
fn cursor_counts_characters_not_bytes() {
    let mut c = SmartIterator::new(String::from("\u{e9}\u{4eac}z"));
    assert_eq!(c.next(), Some('\u{e9}'));
    assert_eq!(c.pos(), (1, 2));
    assert_eq!(c.next(), Some('\u{4eac}'));
    assert_eq!(c.pos(), (1, 3));
    assert_eq!(c.next(), Some('z'));
    assert_eq!(c.next(), None);
}
