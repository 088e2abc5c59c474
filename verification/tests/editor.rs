use jedit::buffer::Char;
use jedit::editor::{Cursor, JEdit, TAB_SIZE};
use jedit::keys::{Code, Event, Step};
use jedit::screen::Draw;
use jedit::syntax::{Highlighter, Plain, Rust};
use jedit::text::{lines, serialize};

fn session() -> JEdit {
    JEdit::new(Some(Highlighter::Rust(Rust::new())))
}

fn loaded(text: &str) -> JEdit {
    let mut jedit = session();
    jedit.set_str(text);
    jedit
}

fn typed(text: &str) -> JEdit {
    let mut jedit = session();
    jedit.handle_str(text);
    jedit
}

fn row(jedit: &JEdit, y: usize) -> String {
    (0..jedit.buffer.width(y))
        .map(|x| jedit.buffer.get(x, y).map(|c| c.chr).unwrap_or('_'))
        .collect()
}

fn at(jedit: &JEdit) -> (usize, usize) {
    (jedit.cursor.x, jedit.cursor.y)
}

#[test]
fn tab_expands_to_four_cells() {
    assert_eq!(TAB_SIZE, 4);
}

#[test]
fn cursor_starts_at_origin() {
    let cursor = Cursor::new();
    assert_eq!((cursor.x, cursor.y, cursor.fake_x), (0, 0, 0));
}

#[test]
fn new_session_is_empty() {
    let jedit = JEdit::new(None);
    assert_eq!(jedit.buffer.height(), 0);
    assert_eq!((jedit.width, jedit.height), (0, 0));
    assert_eq!((jedit.buffer_width, jedit.buffer_height), (0, 0));
    assert_eq!(at(&jedit), (0, 0));
    assert_eq!((jedit.view_x, jedit.view_y, jedit.offset_x), (0, 0, 0));
    assert!(jedit.fits_window());
}

#[test]
fn well_formed_sessions() {
    let mut jedit = typed("ab\nc");
    assert_eq!(at(&jedit), (1, 1));
    assert_eq!((jedit.view_x, jedit.view_y), (1, 1));
    assert!(jedit.well_formed());
    jedit.cursor.x = 2;
    assert!(!jedit.well_formed());
    jedit.cursor.x = 1;
    jedit.view_x = 2;
    assert!(!jedit.well_formed());
    jedit.view_x = 1;
    jedit.cursor.y = 5;
    assert!(!jedit.well_formed());
    jedit.cursor.x = 0;
    assert!(!jedit.well_formed());
    jedit.view_x = 0;
    assert!(jedit.well_formed());
    jedit.buffer_height = usize::MAX / 2;
    assert!(!jedit.well_formed());
    jedit.buffer_height = 10;
    assert!(jedit.well_formed());
    jedit.view_y = 6;
    assert!(!jedit.well_formed());
}

#[test]
fn typing_moves_the_cursor() {
    let jedit = typed("ab");
    assert_eq!(row(&jedit, 0), "ab");
    assert_eq!(at(&jedit), (2, 0));
    let jedit = typed("ab\ncde\n");
    assert_eq!(jedit.buffer.height(), 3);
    assert_eq!(row(&jedit, 0), "ab");
    assert_eq!(row(&jedit, 1), "cde");
    assert_eq!(row(&jedit, 2), "");
    assert_eq!(at(&jedit), (0, 2));
}

#[test]
fn typed_text_is_highlighted() {
    let jedit = typed("fn x");
    let fg: Vec<usize> = (0..4).map(|x| jedit.buffer.get(x, 0).unwrap().fg).collect();
    assert_eq!(fg, vec![2, 2, 1, 1]);
}

#[test]
fn loading_and_writing_out_gives_the_text_back() {
    let texts = [
        "",
        "a",
        "\n",
        "\n\n",
        "a\n",
        "\na",
        "fn main() {\n    let x = 1; // one\n}\n",
        "let s = \"a b\";\n\n\nEnd",
        "é ٣ // ü\nx",
    ];
    for text in texts {
        let jedit = loaded(text);
        assert_eq!(serialize(&jedit.buffer), text);
        assert_eq!(at(&jedit), (0, 0));
        let mut plain = JEdit::new(Some(Highlighter::Plain(Plain::new())));
        plain.handle_str(text);
        assert_eq!(serialize(&plain.buffer), text);
        let mut bare = JEdit::new(None);
        bare.handle_str(text);
        assert_eq!(serialize(&bare.buffer), text);
    }
}

#[test]
fn loading_keeps_tabs_at_the_start_of_the_last_line() {
    for text in ["\t", "\tx", "\t\t\tfn x", "a\n\tb", "x\ny\n\t", "\n\n\t\tz z"] {
        let jedit = loaded(text);
        assert_eq!(serialize(&jedit.buffer), text);
    }
}

#[test]
fn loading_moves_other_tabs() {
    assert_eq!(serialize(&loaded("a\tb").buffer), "\tab");
    assert_eq!(serialize(&loaded("\ta\nb").buffer), "\ta\n\tb");
    assert_eq!(serialize(&loaded("\ta\n\tb").buffer), "\ta\n\t\tb");
}

#[test]
fn lines_of_loaded_text() {
    let jedit = loaded("ab\n\ncd");
    assert_eq!(
        lines(&jedit.buffer),
        vec![String::from("ab"), String::new(), String::from("cd")]
    );
    let jedit = loaded("\n");
    assert!(jedit.buffer.line(0).is_none());
    assert!(jedit.buffer.line(1).is_some());
    assert_eq!(lines(&jedit.buffer), vec![String::new(), String::new()]);
}

#[test]
fn tab_goes_to_the_start_of_the_line() {
    let jedit = typed("\tx");
    assert_eq!(row(&jedit, 0), "\t\t\t\tx");
    assert_eq!(at(&jedit), (5, 0));
    assert_eq!(serialize(&jedit.buffer), "\tx");
    let jedit = typed("a\tb");
    assert_eq!(row(&jedit, 0), "\t\t\t\tab");
    assert_eq!(at(&jedit), (6, 0));
    assert_eq!(serialize(&jedit.buffer), "\tab");
    let jedit = typed("\t\t");
    assert_eq!(row(&jedit, 0), "\t\t\t\t\t\t\t\t");
    assert_eq!(at(&jedit), (8, 0));
    assert_eq!(serialize(&jedit.buffer), "\t\t");
}

#[test]
fn new_line_keeps_the_indentation() {
    let jedit = typed("\ta\nb");
    assert_eq!(row(&jedit, 0), "\t\t\t\ta");
    assert_eq!(row(&jedit, 1), "\t\t\t\tb");
    assert_eq!(at(&jedit), (5, 1));
    assert_eq!(serialize(&jedit.buffer), "\ta\n\tb");
}

#[test]
fn newline_splits_the_line_at_the_cursor() {
    let mut jedit = typed("abcd");
    jedit.move_cursor(2, 0);
    jedit.newline();
    assert_eq!(jedit.buffer.height(), 2);
    assert_eq!(row(&jedit, 0), "ab");
    assert_eq!(row(&jedit, 1), "cd");
    assert_eq!(at(&jedit), (0, 1));
    jedit.move_cursor(0, 0);
    jedit.newline();
    assert_eq!(jedit.buffer.height(), 3);
    assert_eq!(row(&jedit, 0), "");
    assert_eq!(row(&jedit, 1), "ab");
    assert_eq!(row(&jedit, 2), "cd");
    assert_eq!(at(&jedit), (0, 1));
}

#[test]
fn newline_inside_an_indented_line() {
    let mut jedit = typed("\tab");
    jedit.move_cursor(5, 0);
    jedit.newline();
    assert_eq!(row(&jedit, 0), "\t\t\t\ta");
    assert_eq!(row(&jedit, 1), "\t\t\t\tb");
    assert_eq!(at(&jedit), (4, 1));
    let mut jedit = typed("\tab");
    jedit.move_cursor(2, 0);
    jedit.newline();
    assert_eq!(row(&jedit, 0), "\t\t");
    assert_eq!(row(&jedit, 1), "\t\t\t\t\t\tab");
    assert_eq!(at(&jedit), (4, 1));
}

#[test]
fn newline_on_an_absent_line() {
    let mut jedit = session();
    jedit.newline();
    assert_eq!(jedit.buffer.height(), 2);
    assert!(jedit.buffer.line(0).is_none());
    assert!(jedit.buffer.line(1).is_some());
    assert_eq!(jedit.buffer.width(1), 0);
    assert_eq!(at(&jedit), (0, 1));
}

#[test]
fn newline_keeps_holes_of_the_tail() {
    let mut jedit = JEdit::new(None);
    jedit.buffer.insert(0, 0, Char::new('a'));
    jedit.buffer.insert(3, 0, Char::new('b'));
    jedit.move_cursor(1, 0);
    jedit.newline();
    assert_eq!(row(&jedit, 0), "a");
    assert_eq!(row(&jedit, 1), "__b");
    assert_eq!(at(&jedit), (0, 1));
}

#[test]
fn type_char_takes_each_kind() {
    let mut jedit = session();
    jedit.type_char('x');
    jedit.type_char('\t');
    jedit.type_char('\n');
    jedit.type_char('y');
    assert_eq!(row(&jedit, 0), "\t\t\t\tx");
    assert_eq!(row(&jedit, 1), "\t\t\t\ty");
    assert_eq!(at(&jedit), (5, 1));
    jedit.tab();
    assert_eq!(row(&jedit, 1), "\t\t\t\t\t\t\t\ty");
    assert_eq!(at(&jedit), (9, 1));
}

#[test]
fn set_str_replaces_the_buffer() {
    let mut jedit = JEdit::new(None);
    jedit.handle_str("old\ntext");
    jedit.move_cursor(0, 1);
    jedit.set_str("fn");
    assert_eq!(jedit.buffer.height(), 2);
    assert!(jedit.buffer.line(0).is_none());
    assert_eq!(row(&jedit, 1), "fn");
    assert_eq!(jedit.buffer.get(0, 1).unwrap().fg, 2);
    assert_eq!(at(&jedit), (0, 0));
}

#[test]
fn viewport_follows_the_cursor() {
    let mut jedit = session();
    jedit.buffer_width = 40;
    jedit.buffer_height = 20;
    jedit.move_cursor(35, 0);
    assert_eq!((jedit.view_x, jedit.view_y), (5, 0));
    jedit.move_cursor(12, 3);
    assert_eq!((jedit.view_x, jedit.view_y), (2, 0));
    jedit.move_cursor(8, 17);
    assert_eq!((jedit.view_x, jedit.view_y), (0, 2));
    jedit.move_cursor(100, 100);
    assert_eq!((jedit.view_x, jedit.view_y), (70, 85));
    jedit.move_cursor(75, 90);
    assert_eq!((jedit.view_x, jedit.view_y), (65, 85));
    jedit.move_cursor(79, 99);
    assert_eq!((jedit.view_x, jedit.view_y), (65, 85));
    assert_eq!(at(&jedit), (79, 99));
    jedit.move_cursor(0, 0);
    assert_eq!((jedit.view_x, jedit.view_y), (0, 0));
}

#[test]
fn viewport_without_size_sits_on_the_cursor() {
    let mut jedit = session();
    jedit.move_cursor(5, 7);
    assert_eq!((jedit.view_x, jedit.view_y), (5, 7));
    jedit.move_cursor(2, 9);
    assert_eq!((jedit.view_x, jedit.view_y), (2, 9));
}

#[test]
fn backspace_erases_before_the_cursor() {
    let mut jedit = typed("abc");
    jedit.backspace();
    assert_eq!(row(&jedit, 0), "ab");
    assert_eq!(at(&jedit), (2, 0));
    jedit.move_cursor(1, 0);
    jedit.backspace();
    assert_eq!(row(&jedit, 0), "b");
    assert_eq!(at(&jedit), (0, 0));
    jedit.backspace();
    assert_eq!(row(&jedit, 0), "b");
    assert_eq!(at(&jedit), (0, 0));
    assert_eq!(jedit.buffer.height(), 1);
}

#[test]
fn backspace_repaints() {
    let mut jedit = typed("fnx");
    assert_eq!(jedit.buffer.get(0, 0).unwrap().fg, 1);
    jedit.backspace();
    assert_eq!(jedit.buffer.get(0, 0).unwrap().fg, 2);
    assert_eq!(jedit.buffer.get(1, 0).unwrap().fg, 2);
}

#[test]
fn backspace_at_line_start_joins_lines() {
    let mut jedit = typed("ab\ncd");
    jedit.move_cursor(0, 1);
    jedit.backspace();
    assert_eq!(jedit.buffer.height(), 1);
    assert_eq!(row(&jedit, 0), "abcd");
    assert_eq!(at(&jedit), (2, 0));
}

#[test]
fn backspace_at_line_start_drops_tab_cells() {
    let mut jedit = typed("a\n\tb\tc");
    assert_eq!(row(&jedit, 1), "\t\t\t\t\t\t\t\tbc");
    jedit.move_cursor(0, 1);
    jedit.backspace();
    assert_eq!(jedit.buffer.height(), 1);
    assert_eq!(row(&jedit, 0), "abc");
    assert_eq!(at(&jedit), (1, 0));
}

#[test]
fn backspace_joins_an_absent_line_below() {
    let mut jedit = typed("ab");
    jedit.buffer.line_mut(1);
    jedit.buffer.insert(0, 2, Char::new('z'));
    jedit.move_cursor(0, 1);
    jedit.backspace();
    assert_eq!(jedit.buffer.height(), 2);
    assert_eq!(row(&jedit, 0), "ab");
    assert_eq!(row(&jedit, 1), "z");
    assert_eq!(at(&jedit), (2, 0));
}

#[test]
fn backspace_on_a_tab_cell_takes_the_whole_tab() {
    let mut jedit = typed("\tx");
    jedit.move_cursor(4, 0);
    jedit.backspace();
    assert_eq!(row(&jedit, 0), "x");
    assert_eq!(at(&jedit), (0, 0));
    let mut jedit = typed("\t\tx");
    jedit.move_cursor(8, 0);
    jedit.backspace();
    assert_eq!(row(&jedit, 0), "\t\t\t\tx");
    assert_eq!(at(&jedit), (4, 0));
    let mut jedit = typed("\tx");
    jedit.move_cursor(2, 0);
    jedit.backspace();
    assert_eq!(row(&jedit, 0), "x");
    assert_eq!(at(&jedit), (0, 0));
}

#[test]
fn backspace_on_a_hole_erases_the_hole() {
    let mut jedit = session();
    jedit.buffer.insert(2, 0, Char::new('c'));
    jedit.move_cursor(2, 0);
    jedit.backspace();
    assert_eq!(row(&jedit, 0), "_c");
    assert_eq!(at(&jedit), (1, 0));
    jedit.backspace();
    assert_eq!(row(&jedit, 0), "c");
    assert_eq!(at(&jedit), (0, 0));
    assert!(jedit.well_formed());
}

#[test]
fn backspace_on_a_hole_at_the_end_of_the_line() {
    let mut jedit = JEdit::new(None);
    jedit.buffer.insert(0, 0, Char::new('a'));
    jedit.buffer.insert(2, 0, Char::new('c'));
    jedit.buffer.remove(2, 0);
    assert_eq!(row(&jedit, 0), "a_");
    jedit.move_cursor(2, 0);
    jedit.backspace();
    assert_eq!(row(&jedit, 0), "a");
    assert_eq!(at(&jedit), (1, 0));
    assert!(jedit.well_formed());
}

#[test]
fn left_and_right_stay_in_the_line() {
    let mut jedit = typed("abc\nde");
    assert_eq!(at(&jedit), (2, 1));
    assert!(jedit.left());
    assert_eq!(at(&jedit), (1, 1));
    assert_eq!(jedit.cursor.fake_x, 1);
    assert!(jedit.left());
    assert_eq!(at(&jedit), (0, 1));
    assert!(!jedit.left());
    assert_eq!(at(&jedit), (0, 1));
    assert_eq!(jedit.cursor.fake_x, 0);
    jedit.right();
    assert_eq!(at(&jedit), (1, 1));
    jedit.right();
    assert_eq!(at(&jedit), (2, 1));
    jedit.right();
    assert_eq!(at(&jedit), (2, 1));
    assert_eq!(jedit.cursor.fake_x, 2);
}

#[test]
fn up_and_down_remember_the_column() {
    let mut jedit = typed("abcd\nde\nxyz");
    jedit.move_cursor(3, 0);
    jedit.right();
    assert_eq!(at(&jedit), (4, 0));
    assert_eq!(jedit.cursor.fake_x, 4);
    assert!(!jedit.up());
    assert_eq!(at(&jedit), (4, 0));
    assert!(jedit.down());
    assert_eq!(at(&jedit), (2, 1));
    assert_eq!(jedit.cursor.fake_x, 4);
    assert!(jedit.down());
    assert_eq!(at(&jedit), (3, 2));
    assert!(!jedit.down());
    assert_eq!(at(&jedit), (3, 2));
    assert!(jedit.up());
    assert_eq!(at(&jedit), (2, 1));
    assert!(jedit.up());
    assert_eq!(at(&jedit), (4, 0));
}

#[test]
fn resize_takes_the_size() {
    let mut jedit = session();
    jedit.resize(80, 24);
    assert_eq!((jedit.width, jedit.height), (80, 24));
    assert_eq!((jedit.buffer_width, jedit.buffer_height), (0, 24));
}

#[test]
fn can_take_tells_what_would_fail() {
    let jedit = session();
    assert!(!jedit.can_take(&Event::Key(Code::Right)));
    assert!(jedit.can_take(&Event::Key(Code::Left)));
    assert!(jedit.can_take(&Event::Key(Code::Up)));
    assert!(jedit.can_take(&Event::Key(Code::Down)));
    assert!(jedit.can_take(&Event::Key(Code::Backspace)));
    assert!(jedit.can_take(&Event::Key(Code::Showable(String::from("a")))));
    assert!(jedit.can_take(&Event::Key(Code::Other)));
    assert!(jedit.can_take(&Event::Close));
    assert!(jedit.can_take(&Event::Other));
    assert!(jedit.can_take(&Event::Redraw(80, 24)));
    assert!(!jedit.can_take(&Event::Redraw(80, usize::MAX)));
    let mut jedit = typed("a");
    assert!(jedit.can_take(&Event::Key(Code::Right)));
    jedit.buffer.insert(0, 2, Char::new('b'));
    assert!(!jedit.can_take(&Event::Key(Code::Down)));
    jedit.move_cursor(0, 2);
    assert!(!jedit.can_take(&Event::Key(Code::Up)));
    assert!(!jedit.can_take(&Event::Key(Code::Backspace)));
    jedit.move_cursor(1, 2);
    assert!(jedit.can_take(&Event::Key(Code::Backspace)));
}

#[test]
fn react_says_what_comes_next() {
    let mut jedit = session();
    assert_eq!(jedit.react(&Event::Redraw(80, 24)), Step::Redraw);
    assert_eq!((jedit.width, jedit.height, jedit.buffer_height), (80, 24, 24));
    assert_eq!(jedit.react(&Event::Key(Code::Showable(String::from("hi\nyou")))), Step::Redraw);
    assert_eq!(row(&jedit, 0), "hi");
    assert_eq!(row(&jedit, 1), "you");
    assert_eq!(at(&jedit), (3, 1));
    assert_eq!(jedit.react(&Event::Key(Code::Backspace)), Step::Redraw);
    assert_eq!(row(&jedit, 1), "yo");
    assert_eq!(jedit.react(&Event::Key(Code::Left)), Step::Redraw);
    assert_eq!(jedit.react(&Event::Key(Code::Left)), Step::Redraw);
    assert_eq!(jedit.react(&Event::Key(Code::Left)), Step::Wait);
    assert_eq!(at(&jedit), (0, 1));
    assert_eq!(jedit.react(&Event::Key(Code::Right)), Step::Redraw);
    assert_eq!(at(&jedit), (1, 1));
    assert_eq!(jedit.react(&Event::Key(Code::Down)), Step::Wait);
    assert_eq!(jedit.react(&Event::Key(Code::Up)), Step::Redraw);
    assert_eq!(at(&jedit), (1, 0));
    assert_eq!(jedit.react(&Event::Key(Code::Up)), Step::Wait);
    assert_eq!(jedit.react(&Event::Key(Code::Down)), Step::Redraw);
    assert_eq!(at(&jedit), (1, 1));
    assert_eq!(jedit.react(&Event::Key(Code::Other)), Step::Wait);
    assert_eq!(jedit.react(&Event::Other), Step::Wait);
    assert_eq!(jedit.react(&Event::Close), Step::Close);
    assert_eq!(serialize(&jedit.buffer), "hi\nyo");
}

#[test]
fn react_goes_on_after_a_hole() {
    let mut jedit = session();
    jedit.buffer.insert(1, 0, Char::new('c'));
    jedit.move_cursor(1, 0);
    assert_eq!(jedit.react(&Event::Key(Code::Backspace)), Step::Redraw);
    assert_eq!(row(&jedit, 0), "c");
    assert_eq!(at(&jedit), (0, 0));
    assert_eq!(jedit.react(&Event::Close), Step::Close);
    assert_eq!(serialize(&jedit.buffer), "c");
}

fn put_str(x: usize, y: usize, text: &str) -> Draw {
    Draw::PutStr { x, y, text: String::from(text) }
}

fn put_char(x: usize, y: usize, chr: char) -> Draw {
    Draw::PutChar { x, y, chr }
}

#[test]
fn redraw_of_an_empty_buffer() {
    let mut jedit = session();
    jedit.resize(6, 2);
    assert!(jedit.fits_window());
    let ops = jedit.redraw();
    assert_eq!(jedit.offset_x, 1);
    assert_eq!(jedit.buffer_width, 5);
    let mut expected = Vec::new();
    for y in 0..2 {
        expected.push(put_str(0, y, " "));
        expected.push(Draw::SetFont(0));
        for x in 0..5 {
            expected.push(put_char(x + 1, y, ' '));
        }
    }
    expected.push(Draw::SetBg(0));
    expected.push(Draw::SetFg(1));
    expected.push(Draw::SetFont(1));
    expected.push(put_str(1, 0, "|"));
    expected.push(Draw::Flush);
    assert_eq!(ops, expected);
}

#[test]
fn redraw_of_one_line() {
    let mut jedit = session();
    jedit.resize(6, 2);
    jedit.redraw();
    jedit.handle_str("fn\t");
    assert_eq!((jedit.view_x, jedit.view_y), (3, 0));
    jedit.move_cursor(1, 0);
    assert_eq!((jedit.view_x, jedit.view_y), (0, 0));
    jedit.buffer.get_mut(4, 0).unwrap().bg = 6;
    jedit.buffer.get_mut(5, 0).unwrap().font = 3;
    jedit.resize(9, 2);
    let ops = jedit.redraw();
    assert_eq!(jedit.offset_x, 2);
    assert_eq!(jedit.buffer_width, 7);
    let expected = vec![
        Draw::SetBg(0),
        Draw::SetFg(1),
        Draw::SetFont(1),
        put_str(0, 0, "0 "),
        Draw::SetFont(0),
        Draw::SetFg(1),
        Draw::SetBg(0),
        Draw::SetFont(0),
        put_char(2, 0, ' '),
        Draw::SetFg(1),
        Draw::SetBg(0),
        Draw::SetFont(0),
        put_char(3, 0, ' '),
        Draw::SetFg(1),
        Draw::SetBg(0),
        Draw::SetFont(0),
        put_char(4, 0, ' '),
        Draw::SetFg(1),
        Draw::SetBg(0),
        Draw::SetFont(0),
        put_char(5, 0, ' '),
        Draw::SetFg(2),
        Draw::SetBg(6),
        Draw::SetFont(0),
        put_char(6, 0, 'f'),
        Draw::SetFg(2),
        Draw::SetBg(0),
        Draw::SetFont(3),
        put_char(7, 0, 'n'),
        put_char(8, 0, ' '),
        put_str(0, 1, "  "),
        Draw::SetFont(0),
        put_char(2, 1, ' '),
        put_char(3, 1, ' '),
        put_char(4, 1, ' '),
        put_char(5, 1, ' '),
        put_char(6, 1, ' '),
        put_char(7, 1, ' '),
        put_char(8, 1, ' '),
        Draw::SetBg(0),
        Draw::SetFg(1),
        Draw::SetFont(1),
        put_str(3, 0, "|"),
        Draw::Flush,
    ];
    assert_eq!(ops, expected);
}

#[test]
fn redraw_draws_absent_and_empty_lines_alike() {
    let mut jedit = JEdit::new(None);
    jedit.newline();
    assert!(jedit.buffer.line(0).is_none());
    assert!(jedit.buffer.line(1).is_some());
    jedit.move_cursor(0, 0);
    jedit.resize(5, 2);
    let ops = jedit.redraw();
    assert_eq!((jedit.offset_x, jedit.buffer_width), (2, 3));
    assert_eq!(
        ops,
        vec![
            Draw::SetBg(0),
            Draw::SetFg(1),
            Draw::SetFont(1),
            put_str(0, 0, "0 "),
            Draw::SetFont(0),
            put_char(2, 0, ' '),
            put_char(3, 0, ' '),
            put_char(4, 0, ' '),
            Draw::SetBg(0),
            Draw::SetFg(1),
            Draw::SetFont(1),
            put_str(0, 1, "1 "),
            Draw::SetFont(0),
            put_char(2, 1, ' '),
            put_char(3, 1, ' '),
            put_char(4, 1, ' '),
            Draw::SetBg(0),
            Draw::SetFg(1),
            Draw::SetFont(1),
            put_str(2, 0, "|"),
            Draw::Flush,
        ]
    );
}

#[test]
fn redraw_scrolled() {
    let mut jedit = session();
    let text: String = (0..12).map(|i| format!("line{}\n", i)).collect();
    jedit.handle_str(&text);
    assert_eq!(jedit.buffer.height(), 13);
    jedit.resize(7, 3);
    jedit.redraw();
    assert_eq!(jedit.offset_x, 3);
    assert_eq!(jedit.buffer_width, 4);
    jedit.view_x = 2;
    jedit.view_y = 9;
    jedit.move_cursor(4, 9);
    assert_eq!((jedit.view_x, jedit.view_y), (2, 9));
    let ops = jedit.redraw();
    assert_eq!(jedit.offset_x, 3);
    assert_eq!(jedit.buffer_width, 4);
    assert_eq!(ops[3], put_str(0, 0, " 9 "));
    assert_eq!(ops[8], put_char(3, 0, 'n'));
    assert_eq!(ops[12], put_char(4, 0, 'e'));
    assert_eq!(ops[16], put_char(5, 0, '9'));
    assert_eq!(ops[17], put_char(6, 0, ' '));
    assert_eq!(ops[21], put_str(0, 1, "10 "));
    assert_eq!(ops[ops.len() - 2], put_str(5, 0, "|"));
    assert_eq!(ops[ops.len() - 1], Draw::Flush);
}

#[test]
fn redraw_numbers_lines_from_the_viewport() {
    let mut jedit = typed("a\nb\nc");
    assert_eq!(at(&jedit), (1, 2));
    assert_eq!((jedit.view_x, jedit.view_y), (1, 2));
    jedit.resize(4, 1);
    let shown = jedit.redraw();
    assert_eq!(jedit.offset_x, 2);
    assert_eq!(jedit.buffer_width, 2);
    assert_eq!(
        shown,
        vec![
            Draw::SetBg(0),
            Draw::SetFg(1),
            Draw::SetFont(1),
            put_str(0, 0, "2 "),
            Draw::SetFont(0),
            put_char(2, 0, ' '),
            put_char(3, 0, ' '),
            Draw::SetBg(0),
            Draw::SetFg(1),
            Draw::SetFont(1),
            put_str(2, 0, "|"),
            Draw::Flush,
        ]
    );
}

#[test]
fn window_too_large_does_not_fit() {
    let mut jedit = session();
    jedit.width = usize::MAX;
    assert!(!jedit.fits_window());
    jedit.width = 10;
    jedit.buffer_height = usize::MAX / 2;
    assert!(!jedit.fits_window());
    jedit.buffer_height = 10;
    assert!(jedit.fits_window());
}
