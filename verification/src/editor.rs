//! The editing session: a buffer, a cursor and a viewport.
//!
//! Text that is typed or loaded goes through one path, character by
//! character, so that a loaded file is coloured as if it had been typed.

use vstd::prelude::*;
use crate::buffer::{fresh, insertion, Buffer, Char};
use crate::grid::{insert_row, line_of, Grid, Row};
use crate::highlight::{run_end, Pattern};
use crate::laws::lemma_insertion_len;
use crate::sparse::{padded, SparseVec};
use crate::syntax::{Highlighter, Rust};

verus! {

/// The number of cells that one tab character expands to.
pub const TAB_SIZE: usize = 4;

/// Where the next character goes, and the column the cursor returns to when
/// it moves up or down.
#[derive(Copy, Clone, Debug)]
pub struct Cursor {
    pub x: usize,
    pub y: usize,
    pub fake_x: usize,
}

impl Cursor {
    /// The cursor at the start of the first line.
    pub fn new() -> (c: Cursor)
        ensures
            c.x == 0,
            c.y == 0,
            c.fake_x == 0,
    {
        Cursor { x: 0, y: 0, fake_x: 0 }
    }
}

/// An editing session.
pub struct JEdit {
    pub buffer: Buffer,
    /// The size of the window, in cells.
    pub width: usize,
    pub height: usize,
    /// The size of the part of the window that shows the buffer.
    pub buffer_width: usize,
    pub buffer_height: usize,
    pub cursor: Cursor,
    /// The column and the line of the buffer shown in the window's corner.
    pub view_x: usize,
    pub view_y: usize,
    /// The width of the gutter that holds the line numbers.
    pub offset_x: usize,
}

/// The mathematical model of a session.
pub struct Editor {
    pub grid: Grid,
    pub engine: Option<Highlighter>,
    pub width: int,
    pub height: int,
    pub buffer_width: int,
    pub buffer_height: int,
    pub x: int,
    pub y: int,
    pub fake_x: int,
    pub view_x: int,
    pub view_y: int,
    pub offset_x: int,
}

impl View for JEdit {
    type V = Editor;

    open spec fn view(&self) -> Editor {
        Editor {
            grid: self.buffer@,
            engine: self.buffer.engine(),
            width: self.width as int,
            height: self.height as int,
            buffer_width: self.buffer_width as int,
            buffer_height: self.buffer_height as int,
            x: self.cursor.x as int,
            y: self.cursor.y as int,
            fake_x: self.cursor.fake_x as int,
            view_x: self.view_x as int,
            view_y: self.view_y as int,
            offset_x: self.offset_x as int,
        }
    }
}

/// Where a viewport of `span` cells that starts at `view` starts after the
/// cursor went to `at`. The viewport follows a cursor that leaves its middle
/// half: it keeps the cursor behind its first quarter and before its last.
pub open spec fn scrolled(view: int, at: int, span: int) -> int {
    let near = if at < span / 4 + view {
        if at >= span / 4 {
            at - span / 4
        } else {
            0
        }
    } else {
        view
    };
    if at >= 3 * span / 4 + near {
        at - 3 * span / 4
    } else {
        near
    }
}

/// The session after the cursor went to `(x, y)`.
pub open spec fn moved(e: Editor, x: int, y: int) -> Editor {
    Editor {
        x: x,
        y: y,
        view_x: scrolled(e.view_x, x, e.buffer_width),
        view_y: scrolled(e.view_y, y, e.buffer_height),
        ..e
    }
}

/// The number of tab cells that `line` starts with.
pub open spec fn leading_tabs(line: Row) -> int {
    run_end(line, 0, Pattern::Tab)
}

/// `g` after `count` tab cells were inserted, one after the other, at the
/// start of line `y`.
pub open spec fn indented(engine: Option<Highlighter>, g: Grid, y: int, count: nat) -> Grid
    decreases count,
{
    if count == 0 {
        g
    } else {
        insertion(engine, indented(engine, g, y, (count - 1) as nat), 0, y, fresh('\t'))
    }
}

/// The session after a line feed was typed. The line is split at the cursor:
/// what stands behind the cursor moves to a new line below, which starts with
/// a copy of the tab cells that the old line starts with. The cursor goes
/// behind those tab cells. An absent line is followed by an empty one.
pub open spec fn broke_line(e: Editor) -> Editor {
    let rows = padded(e.grid, e.y + 1);
    match rows[e.y] {
        None => moved(
            Editor { grid: insert_row(rows, e.y + 1, Seq::<Option<Char>>::empty()), ..e },
            0,
            e.y + 1,
        ),
        Some(line) => moved(
            Editor {
                grid: insert_row(
                    rows.update(e.y, Some(line.subrange(0, e.x))),
                    e.y + 1,
                    line.subrange(0, leading_tabs(line)) + line.subrange(e.x, line.len() as int),
                ),
                ..e
            },
            leading_tabs(line),
            e.y + 1,
        ),
    }
}

/// The session after a tab was typed: the line of the cursor gets `TAB_SIZE`
/// tab cells at its start, and the cursor moves right by as many columns.
pub open spec fn tabbed(e: Editor) -> Editor {
    moved(
        Editor { grid: indented(e.engine, e.grid, e.y, TAB_SIZE as nat), ..e },
        e.x + TAB_SIZE,
        e.y,
    )
}

/// The session after `chr` was typed.
pub open spec fn typed_char(e: Editor, chr: char) -> Editor {
    if chr == '\n' {
        broke_line(e)
    } else if chr == '\t' {
        tabbed(e)
    } else {
        moved(
            Editor { grid: insertion(e.engine, e.grid, e.x, e.y, fresh(chr)), ..e },
            e.x + 1,
            e.y,
        )
    }
}

/// The session after `text` was typed, character by character.
pub open spec fn typed(e: Editor, text: Seq<char>) -> Editor
    decreases text.len(),
{
    if text.len() == 0 {
        e
    } else {
        typed_char(typed(e, text.drop_last()), text.last())
    }
}

/// The cursor stands in the text: at most one column behind the last column
/// of its line, and at the first column of an absent line.
pub open spec fn cursor_in_text(e: Editor) -> bool {
    0 <= e.x <= line_of(e.grid, e.y).len()
}

/// The viewport can follow the cursor without leaving the machine's numbers.
pub open spec fn scroll_fits(e: Editor) -> bool {
    &&& 3 * e.buffer_width <= usize::MAX
    &&& 3 * e.buffer_width / 4 + e.view_x <= usize::MAX
    &&& 3 * e.buffer_height <= usize::MAX
    &&& 3 * e.buffer_height / 4 + e.view_y <= usize::MAX
}

/// The viewport starts at or before the cursor.
pub open spec fn view_before_cursor(e: Editor) -> bool {
    e.view_x <= e.x && e.view_y <= e.y
}

/// Scrolling keeps what it needs, and leaves the viewport at or before the
/// cursor.
pub proof fn lemma_moved(e: Editor, x: int, y: int)
    requires
        scroll_fits(e),
        0 <= e.view_x,
        0 <= e.view_y,
        0 <= x <= usize::MAX,
        0 <= y <= usize::MAX,
        0 <= e.buffer_width,
        0 <= e.buffer_height,
    ensures
        scroll_fits(moved(e, x, y)),
        view_before_cursor(moved(e, x, y)),
        0 <= moved(e, x, y).view_x,
        0 <= moved(e, x, y).view_y,
{
}

impl JEdit {
    /// Whether the session is one that its methods keep: the cursor stands in
    /// the text, the viewport starts at or before it and can follow it.
    pub open spec fn wf(&self) -> bool {
        &&& cursor_in_text(self@)
        &&& scroll_fits(self@)
        &&& view_before_cursor(self@)
    }

    /// A session on an empty buffer with `syntax` attached, the cursor at the
    /// start, and a window without size.
    pub fn new(syntax: Option<Highlighter>) -> (jedit: JEdit)
        ensures
            jedit.wf(),
            jedit@ == (Editor {
                grid: Seq::<Option<Row>>::empty(),
                engine: syntax,
                width: 0,
                height: 0,
                buffer_width: 0,
                buffer_height: 0,
                x: 0,
                y: 0,
                fake_x: 0,
                view_x: 0,
                view_y: 0,
                offset_x: 0,
            }),
    {
        JEdit {
            buffer: Buffer::new(syntax),
            width: 0,
            height: 0,
            buffer_width: 0,
            buffer_height: 0,
            cursor: Cursor::new(),
            view_x: 0,
            view_y: 0,
            offset_x: 0,
        }
    }

    /// Whether the session is one that its methods keep.
    pub fn well_formed(&self) -> (ok: bool)
        ensures
            ok == self.wf(),
    {
        let len = match self.buffer.line(self.cursor.y) {
            Some(line) => line.len(),
            None => 0,
        };
        let bw = self.buffer_width;
        let bh = self.buffer_height;
        self.cursor.x <= len && self.view_x <= self.cursor.x && self.view_y <= self.cursor.y && bw
            <= usize::MAX / 3 && 3 * bw / 4 <= usize::MAX - self.view_x && bh <= usize::MAX / 3 && 3
            * bh / 4 <= usize::MAX - self.view_y
    }

    /// Puts the cursor at `(x, y)` and lets the viewport follow it.
    pub fn move_cursor(&mut self, x: usize, y: usize)
        requires
            scroll_fits(old(self)@),
        ensures
            final(self)@ == moved(old(self)@, x as int, y as int),
            final(self).buffer == old(self).buffer,
            scroll_fits(final(self)@),
            view_before_cursor(final(self)@),
    {
        proof {
            lemma_moved(self@, x as int, y as int);
        }
        self.cursor.x = x;
        self.cursor.y = y;
        if self.cursor.x < (self.buffer_width / 4) + self.view_x {
            if self.cursor.x >= self.buffer_width / 4 {
                self.view_x = self.cursor.x - (self.buffer_width / 4);
            } else {
                self.view_x = 0;
            }
        }
        if self.cursor.x >= (3 * self.buffer_width / 4) + self.view_x {
            self.view_x = self.cursor.x - (3 * self.buffer_width / 4);
        }
        if self.cursor.y < (self.buffer_height / 4) + self.view_y {
            if self.cursor.y >= self.buffer_height / 4 {
                self.view_y = self.cursor.y - (self.buffer_height / 4);
            } else {
                self.view_y = 0;
            }
        }
        if self.cursor.y >= (3 * self.buffer_height / 4) + self.view_y {
            self.view_y = self.cursor.y - (3 * self.buffer_height / 4);
        }
    }

    /// Types a line feed: splits the line of the cursor at the cursor. What
    /// stands behind the cursor moves to a new line below, which starts with a
    /// copy of the tab cells that the old line starts with.
    pub fn newline(&mut self)
        requires
            old(self).wf(),
        ensures
            final(self)@ == broke_line(old(self)@),
            final(self).wf(),
    {
        let ghost e = self@;
        let ghost rows = padded(e.grid, e.y + 1);
        let x = self.cursor.x;
        let y = self.cursor.y;
        let mut new_line: SparseVec<Char> = SparseVec::new();
        let mut new_x: usize = 0;
        let line_maybe = self.buffer.line_mut(y).take();
        proof {
            self.buffer.lemma_fits();
        }
        match line_maybe {
            Some(mut line) => {
                let ghost whole = line@;
                proof {
                    line.lemma_len_fits();
                }
                loop
                    invariant
                        line@ == whole,
                        whole.len() <= usize::MAX,
                        new_x <= whole.len(),
                        new_line@ == whole.subrange(0, new_x as int),
                        run_end(whole, new_x as int, Pattern::Tab) == leading_tabs(whole),
                    ensures
                        line@ == whole,
                        new_x == leading_tabs(whole),
                        new_x <= whole.len(),
                        new_line@ == whole.subrange(0, new_x as int),
                    decreases whole.len() - new_x,
                {
                    let tab = match line.get(new_x) {
                        Some(chr) => if chr.chr == '\t' {
                            Some(*chr)
                        } else {
                            None
                        },
                        None => None,
                    };
                    match tab {
                        Some(chr) => {
                            new_line.push(Some(chr));
                            proof {
                                assert(new_line@ =~= whole.subrange(0, new_x + 1));
                            }
                            new_x += 1;
                        },
                        None => {
                            break ;
                        },
                    }
                }
                let ghost tabs = new_line@;
                let ghost mut moved_cells: int = 0;
                proof {
                    assert(line@ =~= whole.subrange(0, x as int) + whole.subrange(
                        x as int,
                        whole.len() as int,
                    ));
                    assert(new_line@ =~= tabs + whole.subrange(x as int, x as int));
                }
                while line.len() != x
                    invariant
                        x <= whole.len(),
                        0 <= moved_cells <= whole.len() - x,
                        line@ == whole.subrange(0, x as int) + whole.subrange(
                            x + moved_cells,
                            whole.len() as int,
                        ),
                        new_line@ == tabs + whole.subrange(x as int, x + moved_cells),
                    decreases whole.len() - x - moved_cells,
                {
                    let ghost had = new_line@;
                    let ghost left = line@;
                    let slot = line.remove(x);
                    new_line.push(slot);
                    proof {
                        assert(left.len() == whole.len() - moved_cells);
                        assert(slot == whole[x + moved_cells]);
                        assert(line@ =~= whole.subrange(0, x as int) + whole.subrange(
                            x + moved_cells + 1,
                            whole.len() as int,
                        ));
                        assert(new_line@ =~= tabs + whole.subrange(x as int, x + moved_cells + 1));
                        moved_cells = moved_cells + 1;
                    }
                }
                proof {
                    assert(line@ =~= whole.subrange(0, x as int));
                    assert(new_line@ =~= whole.subrange(0, leading_tabs(whole)) + whole.subrange(
                        x as int,
                        whole.len() as int,
                    ));
                }
                let ghost head = line@;
                let slot = self.buffer.line_mut(y);
                *slot = Some(line);
                proof {
                    assert(self.buffer@ =~= rows.update(y as int, Some(head)));
                }
            },
            None => {
                proof {
                    assert(self.buffer@ =~= rows);
                }
            },
        }
        self.buffer.insert_line(y + 1, new_line);
        self.move_cursor(new_x, y + 1);
    }

    /// Types a tab: inserts `TAB_SIZE` tab cells at the start of the line of
    /// the cursor and moves the cursor right by as many columns.
    pub fn tab(&mut self)
        requires
            old(self).wf(),
        ensures
            final(self)@ == tabbed(old(self)@),
            final(self).wf(),
    {
        let ghost e = self@;
        let y = self.cursor.y;
        let mut i: usize = 0;
        while i < TAB_SIZE
            invariant
                i <= TAB_SIZE,
                0 <= y,
                y == e.y,
                self@ == (Editor { grid: indented(e.engine, e.grid, e.y, i as nat), ..e }),
                line_of(self@.grid, e.y).len() == line_of(e.grid, e.y).len() + i,
            decreases TAB_SIZE - i,
        {
            let ghost g = self.buffer@;
            proof {
                lemma_insertion_len(e.engine, g, 0, y as int, fresh('\t'));
            }
            self.buffer.insert(0, y, Char::new('\t'));
            i += 1;
        }
        proof {
            self.buffer.lemma_fits();
        }
        self.move_cursor(self.cursor.x + TAB_SIZE, y);
    }

    /// Types `chr`: a line feed splits the line, a tab indents it, any other
    /// character is inserted at the cursor, which then moves right.
    pub fn type_char(&mut self, chr: char)
        requires
            old(self).wf(),
        ensures
            final(self)@ == typed_char(old(self)@, chr),
            final(self).wf(),
    {
        if chr == '\n' {
            self.newline();
        } else if chr == '\t' {
            self.tab();
        } else {
            let ghost e = self@;
            let x = self.cursor.x;
            let y = self.cursor.y;
            proof {
                lemma_insertion_len(e.engine, e.grid, x as int, y as int, fresh(chr));
            }
            self.buffer.insert(x, y, Char::new(chr));
            proof {
                self.buffer.lemma_fits();
            }
            self.move_cursor(x + 1, y);
        }
    }

    /// Types `string`, character by character.
    pub fn handle_str(&mut self, string: &str)
        requires
            old(self).wf(),
        ensures
            final(self)@ == typed(old(self)@, string@),
            final(self).wf(),
    {
        let ghost e = self@;
        for chr in it: string.chars()
            invariant
                it.seq() == string@,
                self.wf(),
                self@ == typed(e, string@.subrange(0, it.index() as int)),
        {
            proof {
                assert(string@.subrange(0, it.index() + 1).drop_last() =~= string@.subrange(
                    0,
                    it.index() as int,
                ));
            }
            self.type_char(chr);
        }
        proof {
            assert(string@.subrange(0, string@.len() as int) =~= string@);
        }
    }

    /// Loads `string` into a new buffer with the heuristic highlighter, as if
    /// it were typed at the cursor, and puts the cursor at the start.
    pub fn set_str(&mut self, string: &str)
        requires
            old(self).wf(),
            old(self).cursor.x == 0,
        ensures
            final(self)@ == moved(
                typed(
                    Editor {
                        grid: Seq::<Option<Row>>::empty(),
                        engine: Some(Highlighter::Rust(Rust)),
                        ..old(self)@
                    },
                    string@,
                ),
                0,
                0,
            ),
            final(self).wf(),
    {
        self.buffer = Buffer::new(Some(Highlighter::Rust(Rust::new())));
        self.handle_str(string);
        self.move_cursor(0, 0);
    }
}

} // verus!
