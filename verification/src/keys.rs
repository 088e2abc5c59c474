//! What the session does with the commands that the input source sends.

use vstd::prelude::*;
use crate::buffer::{removal, Char};
use crate::editor::{moved, scroll_fits, typed, Editor, JEdit, TAB_SIZE};
use crate::grid::{cell, line_of, remove_row, row, Grid, Row};
use crate::laws::lemma_removal_len;
use crate::sparse::SparseVec;
use crate::syntax::Highlighter;

verus! {

/// A key that was pressed.
#[derive(Debug, PartialEq, Eq)]
pub enum Code {
    /// A key that types text.
    Showable(String),
    Backspace,
    Left,
    Right,
    Up,
    Down,
    /// Any other key.
    Other,
}

/// What the input source reports.
#[derive(Debug, PartialEq, Eq)]
pub enum Event {
    /// The window wants to be drawn, with its size in cells.
    Redraw(usize, usize),
    Key(Code),
    /// The window was closed.
    Close,
    /// Anything else.
    Other,
}

/// What is to be done after a command.
#[derive(Clone, Copy, Debug, PartialEq, Eq, Structural)]
pub enum Step {
    /// Nothing: wait for the next command.
    Wait,
    /// Draw the window again.
    Redraw,
    /// End the session and write the buffer out.
    Close,
}

/// `r` without its tab cells; holes stay.
pub open spec fn without_tabs(r: Row) -> Row
    decreases r.len(),
{
    if r.len() == 0 {
        r
    } else {
        match r.last() {
            Some(c) => if c.chr == '\t' {
                without_tabs(r.drop_last())
            } else {
                without_tabs(r.drop_last()).push(Some(c))
            },
            None => without_tabs(r.drop_last()).push(None),
        }
    }
}

/// `g` after `count` columns were removed, one after the other, from the
/// start of line `y`.
pub open spec fn unindented(engine: Option<Highlighter>, g: Grid, y: int, count: nat) -> Grid
    decreases count,
{
    if count == 0 {
        g
    } else {
        removal(engine, unindented(engine, g, y, (count - 1) as nat), 0, y)
    }
}

/// Whether the cursor stands at the start of a line that has a line above it.
pub open spec fn at_line_start(e: Editor) -> bool {
    e.x == 0 && e.y != 0
}

/// Whether a backspace can be taken: at the start of a line it joins the line
/// to the one above, which has to be present.
pub open spec fn can_erase(e: Editor) -> bool {
    at_line_start(e) ==> row(e.grid, e.y - 1) is Some
}

/// The session after a backspace.
///
/// At the start of a line the line is joined to the one above: its holes and
/// its cells other than tab cells are appended there, and the cursor goes to
/// where the upper line ended. At the start of the first line nothing
/// happens. Elsewhere the column before the cursor is removed, be it a cell
/// or a hole, and the cursor moves left by one; where the column held a tab
/// cell, its sibling cells at the start of the line go with it, and the
/// cursor moves left by as many columns, as far as it can.
pub open spec fn erased(e: Editor) -> Editor {
    if e.x == 0 {
        if e.y != 0 {
            let upper = line_of(e.grid, e.y - 1);
            let lower = match row(e.grid, e.y) {
                Some(r) => without_tabs(r),
                None => Seq::<Option<Char>>::empty(),
            };
            moved(
                Editor { grid: remove_row(e.grid, e.y).update(e.y - 1, Some(upper + lower)), ..e },
                upper.len() as int,
                e.y - 1,
            )
        } else {
            e
        }
    } else {
        let column = removal(e.engine, e.grid, e.x - 1, e.y);
        match cell(e.grid, e.x - 1, e.y) {
            None => moved(Editor { grid: column, ..e }, e.x - 1, e.y),
            Some(c) => if c.chr == '\t' {
                moved(
                    Editor {
                        grid: unindented(e.engine, column, e.y, (TAB_SIZE - 1) as nat),
                        ..e
                    },
                    if e.x >= TAB_SIZE {
                        e.x - TAB_SIZE
                    } else {
                        0
                    },
                    e.y,
                )
            } else {
                moved(Editor { grid: column, ..e }, e.x - 1, e.y)
            },
        }
    }
}

/// The session after the cursor went one column to the left, if it could.
pub open spec fn went_left(e: Editor) -> Editor {
    if e.x != 0 {
        Editor { fake_x: e.x - 1, ..moved(e, e.x - 1, e.y) }
    } else {
        Editor { fake_x: e.x, ..e }
    }
}

/// The smaller of two numbers.
pub open spec fn least(a: int, b: int) -> int {
    if a <= b {
        a
    } else {
        b
    }
}

/// The session after the cursor went one column to the right, but not past
/// the end of its line.
pub open spec fn went_right(e: Editor) -> Editor {
    let x = least(e.x + 1, line_of(e.grid, e.y).len() as int);
    Editor { fake_x: x, ..moved(e, x, e.y) }
}

/// The session after the cursor went one line up, if there is one, to the
/// column it remembers or to the end of that line.
pub open spec fn went_up(e: Editor) -> Editor {
    if e.y != 0 {
        moved(e, least(e.fake_x, line_of(e.grid, e.y - 1).len() as int), e.y - 1)
    } else {
        e
    }
}

/// The session after the cursor went one line down, if there is one, to the
/// column it remembers or to the end of that line.
pub open spec fn went_down(e: Editor) -> Editor {
    if e.grid.len() > e.y + 1 {
        moved(e, least(e.fake_x, line_of(e.grid, e.y + 1).len() as int), e.y + 1)
    } else {
        e
    }
}

/// The session after the window took the size `w` by `h`.
pub open spec fn resized(e: Editor, w: int, h: int) -> Editor {
    Editor { width: w, height: h, buffer_height: h, ..e }
}

/// Whether the session can take the command: the line that the cursor is to
/// move on, or that a backspace joins to, is present, and the viewport can
/// follow a new size of the window.
pub open spec fn accepts(e: Editor, event: Event) -> bool {
    match event {
        Event::Redraw(w, h) => scroll_fits(resized(e, w as int, h as int)),
        Event::Key(Code::Backspace) => can_erase(e),
        Event::Key(Code::Right) => row(e.grid, e.y) is Some,
        Event::Key(Code::Up) => e.y != 0 ==> row(e.grid, e.y - 1) is Some,
        Event::Key(Code::Down) => e.grid.len() > e.y + 1 ==> row(e.grid, e.y + 1) is Some,
        _ => true,
    }
}

/// The session after the command.
pub open spec fn reacted(e: Editor, event: Event) -> Editor {
    match event {
        Event::Redraw(w, h) => resized(e, w as int, h as int),
        Event::Key(Code::Showable(string)) => typed(e, string@),
        Event::Key(Code::Backspace) => erased(e),
        Event::Key(Code::Left) => went_left(e),
        Event::Key(Code::Right) => went_right(e),
        Event::Key(Code::Up) => went_up(e),
        Event::Key(Code::Down) => went_down(e),
        _ => e,
    }
}

/// What is to be done after the command.
pub open spec fn next_step(e: Editor, event: Event) -> Step {
    match event {
        Event::Redraw(_, _) => Step::Redraw,
        Event::Key(Code::Showable(_)) => Step::Redraw,
        Event::Key(Code::Backspace) => Step::Redraw,
        Event::Key(Code::Left) => if e.x != 0 {
            Step::Redraw
        } else {
            Step::Wait
        },
        Event::Key(Code::Right) => Step::Redraw,
        Event::Key(Code::Up) => if e.y != 0 {
            Step::Redraw
        } else {
            Step::Wait
        },
        Event::Key(Code::Down) => if e.grid.len() > e.y + 1 {
            Step::Redraw
        } else {
            Step::Wait
        },
        Event::Key(Code::Other) => Step::Wait,
        Event::Close => Step::Close,
        Event::Other => Step::Wait,
    }
}

impl JEdit {
    /// Takes a backspace: erases what stands before the cursor.
    pub fn backspace(&mut self)
        requires
            old(self).wf(),
            can_erase(old(self)@),
        ensures
            final(self)@ == erased(old(self)@),
            final(self).wf(),
    {
        let ghost e = self@;
        let x = self.cursor.x;
        let y = self.cursor.y;
        proof {
            self.buffer.lemma_fits();
        }
        if x == 0 {
            if y != 0 {
                let new_y = y - 1;
                let new_x = self.buffer.width(new_y);
                let lower = self.buffer.remove_line(y);
                let ghost rest = self.buffer@;
                let mut line = match self.buffer.line_mut(new_y).take() {
                    Some(l) => l,
                    None => SparseVec::new(),
                };
                let ghost upper = line@;
                match lower {
                    Some(cells) => {
                        let n = cells.len();
                        let mut i: usize = 0;
                        proof {
                            assert(cells@.subrange(0, 0) =~= Seq::<Option<Char>>::empty());
                            assert(upper + without_tabs(cells@.subrange(0, 0)) =~= upper);
                        }
                        while i < n
                            invariant
                                n == cells@.len(),
                                i <= n,
                                line@ == upper + without_tabs(cells@.subrange(0, i as int)),
                            decreases n - i,
                        {
                            proof {
                                assert(cells@.subrange(0, i + 1).drop_last() =~= cells@.subrange(
                                    0,
                                    i as int,
                                ));
                            }
                            let ghost had = line@;
                            match cells.slot(i) {
                                Some(chr) => {
                                    if chr.chr != '\t' {
                                        line.push(Some(*chr));
                                    }
                                },
                                None => {
                                    line.push(None);
                                },
                            }
                            proof {
                                assert(line@ =~= upper + without_tabs(cells@.subrange(0, i + 1)));
                            }
                            i += 1;
                        }
                        proof {
                            assert(cells@.subrange(0, n as int) =~= cells@);
                        }
                    },
                    None => {
                        proof {
                            assert(upper + Seq::<Option<Char>>::empty() =~= upper);
                        }
                    },
                }
                let ghost joined = line@;
                let slot = self.buffer.line_mut(new_y);
                *slot = Some(line);
                proof {
                    assert(self.buffer@ =~= remove_row(e.grid, e.y).update(e.y - 1, Some(joined)));
                }
                self.move_cursor(new_x, new_y);
            }
        } else {
            proof {
                lemma_removal_len(e.engine, e.grid, e.x - 1, e.y);
            }
            let taken = self.buffer.remove(x - 1, y);
            let tab = match taken {
                Some(chr) => chr.chr == '\t',
                None => false,
            };
            let mut new_x = x - 1;
            if tab {
                let ghost column = self.buffer@;
                let mut i: usize = 1;
                while i < TAB_SIZE
                    invariant
                        1 <= i <= TAB_SIZE,
                        y == e.y,
                        self.buffer.engine() == e.engine,
                        self.buffer@ == unindented(e.engine, column, e.y, (i - 1) as nat),
                        new_x == if e.x >= i {
                            e.x - i
                        } else {
                            0
                        },
                        new_x <= line_of(self.buffer@, e.y).len(),
                        self.cursor == old(self).cursor,
                        self.view_x == old(self).view_x,
                        self.view_y == old(self).view_y,
                        self.width == old(self).width,
                        self.height == old(self).height,
                        self.buffer_width == old(self).buffer_width,
                        self.buffer_height == old(self).buffer_height,
                        self.offset_x == old(self).offset_x,
                    decreases TAB_SIZE - i,
                {
                    proof {
                        lemma_removal_len(e.engine, self.buffer@, 0, e.y);
                    }
                    self.buffer.remove(0, y);
                    if new_x != 0 {
                        new_x -= 1;
                    }
                    i += 1;
                }
            }
            self.move_cursor(new_x, y);
        }
    }

    /// Moves the cursor one column to the left, if it can, and remembers the
    /// column. Returns whether the cursor moved.
    pub fn left(&mut self) -> (went: bool)
        requires
            old(self).wf(),
        ensures
            final(self)@ == went_left(old(self)@),
            went == (old(self).cursor.x != 0),
            final(self).wf(),
    {
        let went = self.cursor.x != 0;
        if went {
            self.move_cursor(self.cursor.x - 1, self.cursor.y);
        }
        self.cursor.fake_x = self.cursor.x;
        went
    }

    /// Moves the cursor one column to the right, but not past the end of its
    /// line, and remembers the column.
    pub fn right(&mut self)
        requires
            old(self).wf(),
            row(old(self)@.grid, old(self)@.y) is Some,
        ensures
            final(self)@ == went_right(old(self)@),
            final(self).wf(),
    {
        let len = self.buffer.width(self.cursor.y);
        let x = if self.cursor.x < len {
            self.cursor.x + 1
        } else {
            len
        };
        self.move_cursor(x, self.cursor.y);
        self.cursor.fake_x = self.cursor.x;
    }

    /// Moves the cursor one line up, if there is one, to the column it
    /// remembers or to the end of that line. Returns whether the cursor moved.
    pub fn up(&mut self) -> (went: bool)
        requires
            old(self).wf(),
            old(self)@.y != 0 ==> row(old(self)@.grid, old(self)@.y - 1) is Some,
        ensures
            final(self)@ == went_up(old(self)@),
            went == (old(self).cursor.y != 0),
            final(self).wf(),
    {
        if self.cursor.y != 0 {
            let len = self.buffer.width(self.cursor.y - 1);
            let x = if self.cursor.fake_x < len {
                self.cursor.fake_x
            } else {
                len
            };
            self.move_cursor(x, self.cursor.y - 1);
            true
        } else {
            false
        }
    }

    /// Moves the cursor one line down, if there is one, to the column it
    /// remembers or to the end of that line. Returns whether the cursor moved.
    pub fn down(&mut self) -> (went: bool)
        requires
            old(self).wf(),
            old(self)@.grid.len() > old(self)@.y + 1 ==> row(
                old(self)@.grid,
                old(self)@.y + 1,
            ) is Some,
        ensures
            final(self)@ == went_down(old(self)@),
            went == (old(self)@.grid.len() > old(self)@.y + 1),
            final(self).wf(),
    {
        let height = self.buffer.height();
        if self.cursor.y < height && self.cursor.y + 1 < height {
            let len = self.buffer.width(self.cursor.y + 1);
            let x = if self.cursor.fake_x < len {
                self.cursor.fake_x
            } else {
                len
            };
            self.move_cursor(x, self.cursor.y + 1);
            true
        } else {
            false
        }
    }

    /// Takes the new size of the window, `w` by `h` cells.
    pub fn resize(&mut self, w: usize, h: usize)
        requires
            old(self).wf(),
            scroll_fits(resized(old(self)@, w as int, h as int)),
        ensures
            final(self)@ == resized(old(self)@, w as int, h as int),
            final(self).wf(),
    {
        self.width = w;
        self.height = h;
        self.buffer_height = h;
    }

    /// Whether the session can take `event`.
    pub fn can_take(&self, event: &Event) -> (ok: bool)
        ensures
            ok == accepts(self@, *event),
    {
        match event {
            Event::Redraw(w, h) => {
                let bw = self.buffer_width;
                let h = *h;
                bw <= usize::MAX / 3 && 3 * bw / 4 <= usize::MAX - self.view_x
                    && h <= usize::MAX / 3 && 3 * h / 4 <= usize::MAX - self.view_y
            },
            Event::Key(Code::Backspace) => {
                if self.cursor.x == 0 && self.cursor.y != 0 {
                    self.buffer.line(self.cursor.y - 1).is_some()
                } else {
                    true
                }
            },
            Event::Key(Code::Right) => self.buffer.line(self.cursor.y).is_some(),
            Event::Key(Code::Up) => {
                if self.cursor.y != 0 {
                    self.buffer.line(self.cursor.y - 1).is_some()
                } else {
                    true
                }
            },
            Event::Key(Code::Down) => {
                let height = self.buffer.height();
                if self.cursor.y < height && self.cursor.y + 1 < height {
                    self.buffer.line(self.cursor.y + 1).is_some()
                } else {
                    true
                }
            },
            _ => true,
        }
    }

    /// Takes one command from the input source and says what is to be done
    /// next.
    pub fn react(&mut self, event: &Event) -> (step: Step)
        requires
            old(self).wf(),
            accepts(old(self)@, *event),
        ensures
            final(self)@ == reacted(old(self)@, *event),
            step == next_step(old(self)@, *event),
            final(self).wf(),
    {
        match event {
            Event::Redraw(w, h) => {
                self.resize(*w, *h);
                Step::Redraw
            },
            Event::Key(Code::Showable(string)) => {
                self.handle_str(string.as_str());
                Step::Redraw
            },
            Event::Key(Code::Backspace) => {
                self.backspace();
                Step::Redraw
            },
            Event::Key(Code::Left) => {
                if self.left() {
                    Step::Redraw
                } else {
                    Step::Wait
                }
            },
            Event::Key(Code::Right) => {
                self.right();
                Step::Redraw
            },
            Event::Key(Code::Up) => {
                if self.up() {
                    Step::Redraw
                } else {
                    Step::Wait
                }
            },
            Event::Key(Code::Down) => {
                if self.down() {
                    Step::Redraw
                } else {
                    Step::Wait
                }
            },
            Event::Key(Code::Other) => Step::Wait,
            Event::Close => Step::Close,
            Event::Other => Step::Wait,
        }
    }
}

} // verus!
