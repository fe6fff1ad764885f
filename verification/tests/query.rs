use hstr::state::Query;
use hstr::ui::{column_indices, cursor_column, Direction};

#[test]
fn insert_then_backspace_restores_text() {
    let mut q = Query::new("grep -r");
    q.cursor = 4;
    q.insert_char('x');
    assert_eq!(q.text, "grepx -r");
    q.move_cursor(Direction::Forward);
    assert_eq!(q.cursor, 5);
    q.remove_char();
    q.move_cursor(Direction::Backward);
    assert_eq!(q.text, "grep -r");
    assert_eq!(q.cursor, 4);
}

#[test]
fn insert_counts_characters_not_bytes() {
    let mut q = Query::new("šam");
    q.cursor = 1;
    q.insert_char('p');
    assert_eq!(q.text, "špam");
}

#[test]
fn remove_char_at_start_is_a_noop() {
    let mut q = Query::new("ls");
    q.remove_char();
    assert_eq!(q.text, "ls");
    assert_eq!(q.cursor, 0);
}

#[test]
fn move_cursor_clamps_at_both_ends() {
    let mut q = Query::new("ab");
    q.move_cursor(Direction::Backward);
    assert_eq!(q.cursor, 0);
    q.move_cursor(Direction::Forward);
    q.move_cursor(Direction::Forward);
    q.move_cursor(Direction::Forward);
    assert_eq!(q.cursor, 2);
}

#[test]
fn cursor_column_sums_display_widths() {
    let mut q = Query::new("漢a");
    q.cursor = 2;
    // Prompt of three columns, a separator of two, a double-width character
    // and a narrow one.
    assert_eq!(cursor_column(&q, 3), 3 + 2 + 2 + 1);
    q.cursor = 1;
    assert_eq!(cursor_column(&q, 3), 3 + 2 + 2);
}

#[test]
fn column_indices_track_columns_and_bytes() {
    let cols = column_indices("aš 漢");
    let triples: Vec<(usize, usize, char)> =
        cols.iter().map(|c| (c.column, c.byte_index, c.ch)).collect();
    assert_eq!(triples, [(0, 0, 'a'), (1, 1, 'š'), (2, 3, ' '), (3, 4, '漢')]);
}
