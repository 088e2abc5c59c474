//! What the session shows: the layout of the window and the strokes that draw
//! it. The strokes are plain values; whoever owns the window carries them
//! out in order.

use vstd::prelude::*;
use crate::editor::{scroll_fits, Editor, JEdit};
use crate::grid::cell;
use crate::keys::least;
use crate::text::{blanks, decimal, lemma_decimal_len, number, pad, padded_text};

verus! {

/// One stroke on the window.
#[derive(Debug, PartialEq, Eq)]
pub enum Draw {
    /// Choose the background of what follows.
    SetBg(usize),
    /// Choose the foreground of what follows.
    SetFg(usize),
    /// Choose the font of what follows.
    SetFont(usize),
    /// Put one character at column `x` of line `y` of the window.
    PutChar { x: usize, y: usize, chr: char },
    /// Put a text at column `x` of line `y` of the window.
    PutStr { x: usize, y: usize, text: String },
    /// Show what was drawn.
    Flush,
}

/// The mathematical model of a stroke.
pub enum Stroke {
    SetBg(usize),
    SetFg(usize),
    SetFont(usize),
    PutChar { x: int, y: int, chr: char },
    PutStr { x: int, y: int, text: Seq<char> },
    Flush,
}

impl View for Draw {
    type V = Stroke;

    open spec fn view(&self) -> Stroke {
        match self {
            Draw::SetBg(c) => Stroke::SetBg(*c),
            Draw::SetFg(c) => Stroke::SetFg(*c),
            Draw::SetFont(c) => Stroke::SetFont(*c),
            Draw::PutChar { x, y, chr } => Stroke::PutChar {
                x: *x as int,
                y: *y as int,
                chr: *chr,
            },
            Draw::PutStr { x, y, text } => Stroke::PutStr {
                x: *x as int,
                y: *y as int,
                text: text@,
            },
            Draw::Flush => Stroke::Flush,
        }
    }
}

/// The models of a sequence of strokes.
pub open spec fn strokes(ops: Seq<Draw>) -> Seq<Stroke> {
    ops.map_values(|d: Draw| d@)
}

/// The line of the buffer behind the last one that the window has room for.
pub open spec fn shown_end(e: Editor) -> int {
    least(e.buffer_height + e.view_y, e.grid.len() as int)
}

/// The width of the gutter: room for the highest line number shown, and one
/// blank.
pub open spec fn gutter(e: Editor) -> int {
    if shown_end(e) == 0 {
        1
    } else {
        decimal((shown_end(e) - 1) as nat).len() as int + 1
    }
}

/// The session after the window was laid out: the gutter takes what the line
/// numbers need, the buffer gets the rest of the width.
pub open spec fn laid_out(e: Editor) -> Editor {
    Editor {
        offset_x: gutter(e),
        buffer_width: if e.width >= gutter(e) {
            e.width - gutter(e)
        } else {
            0
        },
        ..e
    }
}

/// Whether the window can be drawn without leaving the machine's numbers.
pub open spec fn can_draw(e: Editor) -> bool {
    &&& e.buffer_height + e.view_y <= usize::MAX
    &&& laid_out(e).buffer_width + e.view_x <= usize::MAX
    &&& e.x + gutter(e) <= usize::MAX
    &&& scroll_fits(laid_out(e))
}

/// The character shown for a cell that holds `chr`: a tab cell shows blank.
pub open spec fn glyph(chr: char) -> char {
    if chr == '\t' {
        ' '
    } else {
        chr
    }
}

/// The strokes for column `x` of line `y` of the window: a blank where the
/// buffer holds no cell there, be it a hole, a column past the line's end or
/// an absent line, else the cell's style and its character.
pub open spec fn cell_strokes(e: Editor, x: int, y: int) -> Seq<Stroke> {
    match cell(e.grid, x + e.view_x, y + e.view_y) {
        None => seq![Stroke::PutChar { x: x + e.offset_x, y: y, chr: ' ' }],
        Some(c) => seq![
            Stroke::SetFg(c.fg),
            Stroke::SetBg(c.bg),
            Stroke::SetFont(c.font),
            Stroke::PutChar { x: x + e.offset_x, y: y, chr: glyph(c.chr) },
        ],
    }
}

/// The strokes for the first `n` columns of line `y` of the window.
pub open spec fn cells_strokes(e: Editor, y: int, n: int) -> Seq<Stroke>
    decreases n,
{
    if n <= 0 {
        Seq::empty()
    } else {
        cells_strokes(e, y, n - 1) + cell_strokes(e, n - 1, y)
    }
}

/// The strokes for the part of line `y` of the window that shows the buffer:
/// those of each of its columns, from left to right. An absent line is drawn
/// as an empty one, blank in every column.
pub open spec fn line_strokes(e: Editor, y: int) -> Seq<Stroke> {
    cells_strokes(e, y, e.buffer_width)
}

/// The strokes for the gutter of line `y` of the window: the number of the
/// line it shows, or blanks behind the last line.
pub open spec fn gutter_strokes(e: Editor, y: int) -> Seq<Stroke> {
    if y + e.view_y < shown_end(e) {
        seq![
            Stroke::SetBg(0),
            Stroke::SetFg(1),
            Stroke::SetFont(1),
            Stroke::PutStr {
                x: 0,
                y: y,
                text: padded_text(decimal((y + e.view_y) as nat).push(' '), e.offset_x),
            },
        ]
    } else {
        seq![Stroke::PutStr { x: 0, y: y, text: blanks(e.offset_x) }]
    }
}

/// The strokes for line `y` of the window.
pub open spec fn row_strokes(e: Editor, y: int) -> Seq<Stroke> {
    gutter_strokes(e, y).push(Stroke::SetFont(0)) + line_strokes(e, y)
}

/// The strokes for the first `n` lines of the window.
pub open spec fn rows_strokes(e: Editor, n: int) -> Seq<Stroke>
    decreases n,
{
    if n <= 0 {
        Seq::empty()
    } else {
        rows_strokes(e, n - 1) + row_strokes(e, n - 1)
    }
}

/// The strokes for the cursor, where it stands at or below the first line
/// shown.
pub open spec fn cursor_strokes(e: Editor) -> Seq<Stroke> {
    if e.y >= e.view_y {
        seq![
            Stroke::SetBg(0),
            Stroke::SetFg(1),
            Stroke::SetFont(1),
            Stroke::PutStr { x: e.x + e.offset_x - e.view_x, y: e.y - e.view_y, text: "|"@ },
        ]
    } else {
        Seq::empty()
    }
}

/// The strokes that draw the whole window.
pub open spec fn frame(e: Editor) -> Seq<Stroke> {
    (rows_strokes(e, e.buffer_height) + cursor_strokes(e)).push(Stroke::Flush)
}

/// Appends one stroke.
fn put(ops: &mut Vec<Draw>, stroke: Draw)
    ensures
        strokes(final(ops)@) == strokes(old(ops)@).push(stroke@),
{
    ops.push(stroke);
    assert(strokes(ops@) =~= strokes(old(ops)@).push(stroke@));
}

/// The number of decimal digits of `n`.
pub fn digits(n: usize) -> (count: usize)
    ensures
        count == decimal(n as nat).len(),
{
    proof {
        lemma_decimal_len(n as nat);
    }
    let mut count: usize = 1;
    let mut rest = n;
    while rest >= 10
        invariant
            1 <= count,
            decimal(rest as nat).len() + count - 1 == decimal(n as nat).len(),
            decimal(n as nat).len() <= 20,
        decreases rest,
    {
        rest = rest / 10;
        count += 1;
    }
    count
}

/// A text of `n` blanks.
pub fn spaces(n: usize) -> (out: String)
    ensures
        out@ == blanks(n as int),
{
    let mut out = String::new();
    let mut i: usize = 0;
    proof {
        assert(out@ =~= blanks(0));
    }
    while i < n
        invariant
            i <= n,
            out@ == blanks(i as int),
        decreases n - i,
    {
        let ghost had = out@;
        out.push(' ');
        proof {
            assert(had.push(' ') =~= blanks(i + 1));
        }
        i += 1;
    }
    out
}

impl JEdit {
    /// Whether the window can be drawn.
    pub fn fits_window(&self) -> (ok: bool)
        ensures
            ok == can_draw(self@),
    {
        if self.buffer_height > usize::MAX - self.view_y {
            return false;
        }
        let height = self.buffer.height();
        let reach = self.buffer_height + self.view_y;
        let end = if reach < height {
            reach
        } else {
            height
        };
        let offset = if end == 0 {
            1
        } else {
            proof {
                lemma_decimal_len((end - 1) as nat);
            }
            digits(end - 1) + 1
        };
        let bw = if self.width >= offset {
            self.width - offset
        } else {
            0
        };
        let bh = self.buffer_height;
        bw <= usize::MAX - self.view_x && self.cursor.x <= usize::MAX - offset && bw <= usize::MAX
            / 3 && 3 * bw / 4 <= usize::MAX - self.view_x && bh <= usize::MAX / 3 && 3 * bh / 4
            <= usize::MAX - self.view_y
    }

    /// Appends the strokes for the part of line `y` of the window that shows
    /// the buffer: one character for each column.
    pub fn redraw_line(&self, y: usize, ops: &mut Vec<Draw>)
        requires
            self.buffer_width + self.view_x <= usize::MAX,
            self.buffer_width + self.offset_x <= usize::MAX,
            y + self.view_y <= usize::MAX,
        ensures
            strokes(final(ops)@) == strokes(old(ops)@) + line_strokes(self@, y as int),
    {
        let ghost e = self@;
        let ghost had = strokes(ops@);
        let mut x: usize = 0;
        proof {
            assert(had + cells_strokes(e, y as int, 0) =~= had);
        }
        while x < self.buffer_width
            invariant
                x <= self.buffer_width,
                e == self@,
                self.buffer_width + self.view_x <= usize::MAX,
                self.buffer_width + self.offset_x <= usize::MAX,
                y + self.view_y <= usize::MAX,
                strokes(ops@) == had + cells_strokes(e, y as int, x as int),
            decreases self.buffer_width - x,
        {
            let ghost before = strokes(ops@);
            let ghost step = cell_strokes(e, x as int, y as int);
            match self.buffer.get(x + self.view_x, y + self.view_y) {
                None => {
                    put(ops, Draw::PutChar { x: x + self.offset_x, y: y, chr: ' ' });
                },
                Some(chr) => {
                    put(ops, Draw::SetFg(chr.fg));
                    put(ops, Draw::SetBg(chr.bg));
                    put(ops, Draw::SetFont(chr.font));
                    put(
                        ops,
                        Draw::PutChar {
                            x: x + self.offset_x,
                            y: y,
                            chr: if chr.chr == '\t' {
                                ' '
                            } else {
                                chr.chr
                            },
                        },
                    );
                },
            }
            proof {
                assert(strokes(ops@) =~= before + step);
                assert(before + step =~= had + (cells_strokes(e, y as int, x as int) + step));
            }
            x += 1;
        }
    }

    /// Lays the window out: the gutter takes what the line numbers need, the
    /// buffer gets the rest of the width.
    pub fn layout(&mut self)
        requires
            old(self).wf(),
            can_draw(old(self)@),
        ensures
            final(self)@ == laid_out(old(self)@),
            final(self).wf(),
            final(self).buffer == old(self).buffer,
            final(self).buffer_width + final(self).offset_x <= usize::MAX,
    {
        let height = self.buffer.height();
        let reach = self.buffer_height + self.view_y;
        let end = if reach < height {
            reach
        } else {
            height
        };
        self.offset_x = if end == 0 {
            0
        } else {
            proof {
                lemma_decimal_len((end - 1) as nat);
            }
            digits(end - 1)
        };
        self.offset_x += 1;
        if self.width >= self.offset_x {
            self.buffer_width = self.width - self.offset_x;
        } else {
            self.buffer_width = 0;
        }
    }

    /// Appends the strokes for line `y` of the window.
    fn redraw_row(&self, y: usize, ops: &mut Vec<Draw>)
        requires
            self.buffer_height + self.view_y <= usize::MAX,
            self.buffer_width + self.view_x <= usize::MAX,
            self.buffer_width + self.offset_x <= usize::MAX,
            y < self.buffer_height,
        ensures
            strokes(final(ops)@) == strokes(old(ops)@) + row_strokes(self@, y as int),
    {
        let ghost e = self@;
        let ghost before = strokes(ops@);
        let height = self.buffer.height();
        let reach = self.buffer_height + self.view_y;
        let end = if reach < height {
            reach
        } else {
            height
        };
        if y + self.view_y < end {
            put(ops, Draw::SetBg(0));
            put(ops, Draw::SetFg(1));
            put(ops, Draw::SetFont(1));
            let mut label = number(y + self.view_y);
            label.push(' ');
            put(ops, Draw::PutStr { x: 0, y: y, text: pad(label, self.offset_x) });
        } else {
            put(ops, Draw::PutStr { x: 0, y: y, text: spaces(self.offset_x) });
        }
        put(ops, Draw::SetFont(0));
        proof {
            assert(strokes(ops@) =~= before + gutter_strokes(e, y as int).push(Stroke::SetFont(0)));
        }
        self.redraw_line(y, ops);
        proof {
            assert(strokes(ops@) =~= before + row_strokes(e, y as int));
        }
    }

    /// Appends the strokes for the cursor.
    fn redraw_cursor(&self, ops: &mut Vec<Draw>)
        requires
            self.view_x <= self.cursor.x,
            self.cursor.x + self.offset_x <= usize::MAX,
        ensures
            strokes(final(ops)@) == strokes(old(ops)@) + cursor_strokes(self@),
    {
        let ghost before = strokes(ops@);
        if self.cursor.y >= self.view_y {
            put(ops, Draw::SetBg(0));
            put(ops, Draw::SetFg(1));
            put(ops, Draw::SetFont(1));
            put(
                ops,
                Draw::PutStr {
                    x: self.cursor.x + self.offset_x - self.view_x,
                    y: self.cursor.y - self.view_y,
                    text: "|".to_owned(),
                },
            );
        }
        proof {
            assert(strokes(ops@) =~= before + cursor_strokes(self@));
        }
    }

    /// Lays the window out and returns the strokes that draw it.
    pub fn redraw(&mut self) -> (ops: Vec<Draw>)
        requires
            old(self).wf(),
            can_draw(old(self)@),
        ensures
            final(self)@ == laid_out(old(self)@),
            strokes(ops@) == frame(final(self)@),
            final(self).wf(),
    {
        self.layout();
        let ghost e = self@;
        let mut ops: Vec<Draw> = Vec::new();
        let mut y: usize = 0;
        proof {
            assert(strokes(ops@) =~= rows_strokes(e, 0));
        }
        while y < self.buffer_height
            invariant
                y <= self.buffer_height,
                e == self@,
                self.buffer_height + self.view_y <= usize::MAX,
                self.buffer_width + self.view_x <= usize::MAX,
                self.buffer_width + self.offset_x <= usize::MAX,
                strokes(ops@) == rows_strokes(e, y as int),
            decreases self.buffer_height - y,
        {
            self.redraw_row(y, &mut ops);
            y += 1;
        }
        self.redraw_cursor(&mut ops);
        put(&mut ops, Draw::Flush);
        ops
    }
}

} // verus!
