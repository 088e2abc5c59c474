//! Highlighters: they repaint the foreground of the cells round an edit.
//!
//! A highlighter keeps no state between calls. Whatever it needs it reads from
//! the buffer round the edit, and it writes nothing but foregrounds.

use std::ops::Range;
use vstd::prelude::*;
use crate::buffer::{Buffer, Char};
use crate::chars::str_equal;
use crate::grid::{
    cell, lemma_same_text_refl, lemma_with_row_same, lemma_with_row_same_text,
    lemma_with_row_twice, line_of, row, same_text, with_row, Grid,
};
use crate::highlight::{
    category, dyed, filled_until, painted, hit, infer_row, repaint_inserted, is_keyword,
    lemma_infer_row_same_text, lemma_repaint_inserted_same_text, lemma_repaint_removed_same_text,
    lemma_paint_one, lemma_paint_same_text, lemma_run, lemma_scan_same_text, paint, paint_span,
    repaint_removed, run_end, run_start, scan_end, scan_start, scan_text, span_text, token_width,
    update_from, update_row, Pattern, COMMENT, COMMENT_0, COMMENT_1, DEFAULT, KEYWORD, NUMERIC,
    STRING, STRING_END, STRING_START, TYPE,
};
use crate::sparse::at;

verus! {

/// The grid `g` with the cells of line `y` in the columns from `start` up to
/// `end` painted in `color`, up to the first column that holds no cell.
pub open spec fn colored(g: Grid, start: int, end: int, y: int, color: usize) -> Grid {
    with_row(g, y, paint_span(line_of(g, y), start, end, color))
}

/// The grid `g` after the category of the cell at `(x, y)` was inferred.
pub open spec fn inferred(g: Grid, x: int, y: int) -> Grid {
    with_row(g, y, infer_row(line_of(g, y), x))
}

/// The grid `g` after the token round the cell at `(x, y)` was updated.
pub open spec fn updated(g: Grid, x: int, y: int) -> Grid {
    with_row(g, y, update_row(line_of(g, y), x))
}

/// Paints the cells of line `y` in the columns of `range` in `color`, and
/// stops without notice at the first column that holds no cell.
pub fn color_range(range: Range<usize>, y: usize, color: usize, buffer: &mut Buffer)
    ensures
        final(buffer)@ == colored(
            old(buffer)@,
            range.start as int,
            range.end as int,
            y as int,
            color,
        ),
        final(buffer).engine() == old(buffer).engine(),
{
    let ghost g = buffer@;
    let ghost r = line_of(g, y as int);
    let mut x = range.start;
    proof {
        assert(painted(r, range.start as int, range.start as int, color) =~= r);
        assert(with_row(g, y as int, r) =~= g);
    }
    while x < range.end
        invariant
            range.start <= x,
            buffer.engine() == old(buffer).engine(),
            g == old(buffer)@,
            r == line_of(g, y as int),
            filled_until(r, range.start as int, range.end as int) == filled_until(
                r,
                x as int,
                range.end as int,
            ),
            buffer@ == with_row(
                g,
                y as int,
                painted(r, range.start as int, x as int, color),
            ),
        ensures
            buffer.engine() == old(buffer).engine(),
            buffer@ == with_row(
                g,
                y as int,
                paint_span(r, range.start as int, range.end as int, color),
            ),
        decreases range.end - x,
    {
        let ghost before = buffer@;
        let ghost done = painted(r, range.start as int, x as int, color);
        match buffer.get_mut(x, y) {
            Some(chr) => {
                chr.fg = color;
            },
            None => {
                proof {
                    assert(at(r, x as int) is None);
                    assert(done =~= paint_span(r, range.start as int, range.end as int, color));
                }
                break ;
            },
        }
        proof {
            let next = painted(r, range.start as int, x + 1, color);
            assert(cell(before, x as int, y as int) is Some);
            assert(line_of(before, y as int) == done);
            assert(done[x as int] == r[x as int]);
            assert(buffer@ =~= with_row(g, y as int, next)) by {
                assert(done.update(x as int, Some(dyed(r[x as int]->0, color))) =~= next);
            }
        }
        x += 1;
    }
}

/// Scans line `y` from column `x` for the unbroken run of cells whose
/// characters `pred` accepts, and returns the columns of the run and its
/// text. The run stops before a hole, a miss or the line's start. Started on a
/// cell that `pred` does not accept, the scan returns the empty range behind
/// `x`; started on a hole, the empty range at `x`.
pub fn search(x: usize, y: usize, buffer: &mut Buffer, pred: Pattern) -> (found: (
    Range<usize>,
    String,
))
    ensures
        *final(buffer) == *old(buffer),
        found.0.start == scan_start(line_of(old(buffer)@, y as int), x as int, pred),
        found.0.end == scan_end(line_of(old(buffer)@, y as int), x as int, pred),
        found.1@ == scan_text(line_of(old(buffer)@, y as int), x as int, pred),
{
    let ghost r = line_of(buffer@, y as int);
    proof {
        buffer.lemma_fits();
    }
    let here = match buffer.get(x, y) {
        Some(chr) => chr.chr,
        None => {
            return (x..x, String::new());
        },
    };
    if !pred.test(here) {
        return ((x + 1)..x, String::new());
    }
    let mut start = x;
    loop
        invariant
            *buffer == *old(buffer),
            r == line_of(buffer@, y as int),
            start <= x,
            run_start(r, start as int, pred) == run_start(r, x as int, pred),
        ensures
            start == run_start(r, x as int, pred),
        decreases start,
    {
        if start == 0 {
            break ;
        }
        let left = match buffer.get(start - 1, y) {
            Some(chr) => pred.test(chr.chr),
            None => false,
        };
        if !left {
            break ;
        }
        start -= 1;
    }
    let mut end = x;
    loop
        invariant
            *buffer == *old(buffer),
            r == line_of(buffer@, y as int),
            r.len() <= usize::MAX,
            x <= end <= r.len(),
            run_end(r, end as int, pred) == run_end(r, x as int, pred),
        ensures
            x <= end <= r.len(),
            end == run_end(r, x as int, pred),
        decreases r.len() - end,
    {
        let right = match buffer.get(end, y) {
            Some(chr) => pred.test(chr.chr),
            None => false,
        };
        if !right {
            break ;
        }
        end += 1;
    }
    proof {
        lemma_run(r, x as int, pred);
    }
    let mut string = String::new();
    let mut i = start;
    while i < end
        invariant
            *buffer == *old(buffer),
            r == line_of(buffer@, y as int),
            start <= i <= end <= r.len(),
            forall|k: int| start <= k < end ==> hit(r, k, pred),
            string@ == span_text(r, start as int, i as int),
        decreases end - i,
    {
        let ghost before = string@;
        match buffer.get(i, y) {
            Some(chr) => {
                string.push(chr.chr);
            },
            None => {
                proof {
                    assert(hit(r, i as int, pred));
                }
            },
        }
        proof {
            assert(hit(r, i as int, pred));
            assert(before.push(r[i as int]->0.chr) =~= span_text(r, start as int, i + 1));
        }
        i += 1;
    }
    (start..end, string)
}

/// Whether `text` is one of the keywords.
pub fn keyword(text: &str) -> (b: bool)
    ensures
        b == is_keyword(text@),
{
    str_equal(text, "struct")
        || str_equal(text, "enum")
        || str_equal(text, "impl")
        || str_equal(text, "trait")
        || str_equal(text, "loop")
        || str_equal(text, "while")
        || str_equal(text, "for")
        || str_equal(text, "in")
        || str_equal(text, "if")
        || str_equal(text, "else")
        || str_equal(text, "unsafe")
        || str_equal(text, "return")
        || str_equal(text, "break")
        || str_equal(text, "continue")
        || str_equal(text, "pub")
        || str_equal(text, "mod")
        || str_equal(text, "fn")
        || str_equal(text, "use")
        || str_equal(text, "extern")
        || str_equal(text, "crate")
        || str_equal(text, "i8")
        || str_equal(text, "i16")
        || str_equal(text, "i32")
        || str_equal(text, "i64")
        || str_equal(text, "isize")
        || str_equal(text, "u8")
        || str_equal(text, "u16")
        || str_equal(text, "u32")
        || str_equal(text, "u64")
        || str_equal(text, "usize")
        || str_equal(text, "char")
        || str_equal(text, "str")
        || str_equal(text, "self")
        || str_equal(text, "let")
        || str_equal(text, "mut")
        || str_equal(text, "const")
}

/// The category of a token found at a cell that was seeded with `seeded`,
/// given whether its text is a keyword, and whether it starts with an
/// uppercase letter or with a digit.
pub fn token_category(seeded: usize, keyword: bool, upper: bool, digit: bool) -> (color: usize)
    ensures
        color == category(seeded, keyword, upper, digit),
{
    if upper {
        TYPE
    } else if digit {
        NUMERIC
    } else if seeded != COMMENT && seeded != STRING {
        if keyword {
            KEYWORD
        } else {
            DEFAULT
        }
    } else {
        seeded
    }
}

/// What a highlighter does when the buffer tells it of an edit.
pub trait Syntax {
    /// The grid `g` after the highlighter has reacted to the insertion of
    /// `chr` at column `x` of line `y`.
    spec fn inserted(&self, g: Grid, x: int, y: int, chr: char) -> Grid;

    /// The grid `g` after the highlighter has reacted to the removal of the
    /// cell `chr` from column `x` of line `y`.
    spec fn removed(&self, g: Grid, x: int, y: int, chr: Char) -> Grid;

    /// Reacts to the insertion of `chr` at column `x` of line `y`. Only
    /// foregrounds change.
    fn insert(&mut self, x: usize, y: usize, chr: char, buffer: &mut Buffer)
        ensures
            final(buffer)@ == old(self).inserted(old(buffer)@, x as int, y as int, chr),
            same_text(old(buffer)@, final(buffer)@),
            final(buffer).engine() == old(buffer).engine(),
    ;

    /// Reacts to the removal of the cell `chr` from column `x` of line `y`.
    /// Only foregrounds change.
    fn remove(&mut self, x: usize, y: usize, chr: &Char, buffer: &mut Buffer)
        ensures
            final(buffer)@ == old(self).removed(old(buffer)@, x as int, y as int, *chr),
            same_text(old(buffer)@, final(buffer)@),
            final(buffer).engine() == old(buffer).engine(),
    ;
}

/// The highlighter that paints every cell in the default colour.
#[derive(Clone, Copy, Debug)]
pub struct Plain;

impl Plain {
    pub fn new() -> (plain: Plain)
        ensures
            plain == Plain,
    {
        Plain
    }
}

impl Syntax for Plain {
    /// The new cell gets the default colour.
    open spec fn inserted(&self, g: Grid, x: int, y: int, chr: char) -> Grid {
        with_row(g, y, paint(line_of(g, y), x, DEFAULT))
    }

    /// Nothing changes.
    open spec fn removed(&self, g: Grid, x: int, y: int, chr: Char) -> Grid {
        g
    }

    fn insert(&mut self, x: usize, y: usize, chr: char, buffer: &mut Buffer) {
        let ghost g = buffer@;
        proof {
            lemma_with_row_same(g, y as int);
            lemma_paint_same_text(line_of(g, y as int), x as int, DEFAULT);
            lemma_with_row_same_text(g, y as int, paint(line_of(g, y as int), x as int, DEFAULT));
        }
        match buffer.get_mut(x, y) {
            Some(cell) => {
                cell.fg = DEFAULT;
            },
            None => {},
        }
        assert(buffer@ =~= with_row(g, y as int, paint(line_of(g, y as int), x as int, DEFAULT)));
    }

    fn remove(&mut self, x: usize, y: usize, chr: &Char, buffer: &mut Buffer) {
        proof {
            lemma_same_text_refl(buffer@);
        }
    }
}

/// The heuristic highlighter for Rust source text.
#[derive(Clone, Copy, Debug)]
pub struct Rust;

impl Rust {
    pub fn new() -> (rust: Rust)
        ensures
            rust == Rust,
    {
        Rust
    }

    /// Infers the category of the cell at column `x` of line `y` from its
    /// character and from the category of its left neighbour.
    pub fn infer(&mut self, x: usize, y: usize, buffer: &mut Buffer)
        ensures
            final(buffer)@ == inferred(old(buffer)@, x as int, y as int),
            final(buffer).engine() == old(buffer).engine(),
    {
        let ghost g = buffer@;
        let ghost r = line_of(g, y as int);
        proof {
            buffer.lemma_fits();
            lemma_with_row_same(g, y as int);
        }
        let quote = match buffer.get(x, y) {
            Some(chr) => chr.chr == '"',
            None => {
                return ;
            },
        };
        if x == 0 {
            let color = if quote {
                STRING_START
            } else {
                DEFAULT
            };
            proof {
                lemma_paint_one(r, 0, color);
            }
            color_range(0..1, y, color, buffer);
        } else {
            let left = match buffer.get(x - 1, y) {
                Some(chr) => chr.fg,
                None => {
                    return ;
                },
            };
            let color = if quote {
                if left == STRING {
                    STRING_END
                } else {
                    STRING_START
                }
            } else if left == COMMENT || left == COMMENT_1 {
                COMMENT
            } else if left == STRING_START || left == STRING {
                STRING
            } else {
                DEFAULT
            };
            proof {
                lemma_paint_one(r, x as int, color);
            }
            color_range(x..(x + 1), y, color, buffer);
        }
    }

    /// Updates the token round column `x` of line `y`: infers the category of
    /// the cell at `x`, then paints the whole alphanumeric token that holds it.
    /// Returns the number of columns of that token.
    pub fn update(&mut self, x: usize, y: usize, buffer: &mut Buffer) -> (width: usize)
        ensures
            final(buffer)@ == updated(old(buffer)@, x as int, y as int),
            final(buffer).engine() == old(buffer).engine(),
            width == token_width(line_of(old(buffer)@, y as int), x as int),
    {
        let ghost g = buffer@;
        let ghost r = line_of(g, y as int);
        let ghost seeded = infer_row(r, x as int);
        proof {
            lemma_with_row_same(g, y as int);
            lemma_with_row_twice(g, y as int, seeded, seeded);
            lemma_infer_row_same_text(r, x as int);
            lemma_scan_same_text(r, seeded, x as int, Pattern::Alphanumeric);
            if hit(seeded, x as int, Pattern::Alphanumeric) {
                lemma_run(seeded, x as int, Pattern::Alphanumeric);
            }
        }
        self.infer(x, y, buffer);
        let seed = match buffer.get(x, y) {
            Some(chr) => chr.fg,
            None => {
                return 0;
            },
        };
        let (range, string) = search(x, y, buffer, Pattern::Alphanumeric);
        let mut upper = false;
        let mut digit = false;
        let mut width: usize = 0;
        if range.start < range.end {
            let first = string.as_str().get_char(0);
            upper = first.is_uppercase();
            digit = first.is_numeric();
            width = range.end - range.start;
        }
        let color = token_category(seed, keyword(string.as_str()), upper, digit);
        proof {
            lemma_with_row_twice(
                g,
                y as int,
                seeded,
                paint_span(seeded, range.start as int, range.end as int, color),
            );
        }
        color_range(range, y, color, buffer);
        width
    }
}

impl Syntax for Rust {
    /// Line `y` is repainted round column `x`: as a comment where the new
    /// cell completes a comment marker, token by token otherwise.
    open spec fn inserted(&self, g: Grid, x: int, y: int, chr: char) -> Grid {
        with_row(g, y, repaint_inserted(line_of(g, y), x))
    }

    /// Line `y` is repainted from column `x` on, as the category of the
    /// removed cell asks for.
    open spec fn removed(&self, g: Grid, x: int, y: int, chr: Char) -> Grid {
        with_row(g, y, repaint_removed(line_of(g, y), x, chr.fg))
    }

    fn insert(&mut self, x: usize, y: usize, chr: char, buffer: &mut Buffer) {
        let ghost g = buffer@;
        let ghost r = line_of(g, y as int);
        proof {
            buffer.lemma_fits();
            lemma_with_row_same(g, y as int);
            lemma_repaint_inserted_same_text(r, x as int);
            lemma_with_row_same_text(g, y as int, repaint_inserted(r, x as int));
            if hit(r, x as int, Pattern::Slash) {
                lemma_run(r, x as int, Pattern::Slash);
            }
        }
        if buffer.line(y).is_none() {
            return ;
        }
        let width = buffer.width(y);
        let (range, string) = search(x, y, buffer, Pattern::Slash);
        if range.start < range.end && range.end - range.start > 1 {
            let start = range.start;
            let ghost first = paint_span(r, start as int, start + 1, COMMENT_0);
            let ghost second = paint_span(first, start + 1, start + 2, COMMENT_1);
            let ghost third = paint_span(second, start + 2, r.len() as int, COMMENT);
            proof {
                lemma_with_row_twice(g, y as int, first, second);
                lemma_with_row_twice(g, y as int, second, third);
            }
            color_range(start..(start + 1), y, COMMENT_0, buffer);
            color_range((start + 1)..(start + 2), y, COMMENT_1, buffer);
            color_range((start + 2)..width, y, COMMENT, buffer);
            return ;
        }
        self.update(x, y, buffer);
    }

    fn remove(&mut self, x: usize, y: usize, chr: &Char, buffer: &mut Buffer) {
        let ghost g = buffer@;
        let ghost r = line_of(g, y as int);
        proof {
            buffer.lemma_fits();
            lemma_with_row_same(g, y as int);
            lemma_repaint_removed_same_text(r, x as int, chr.fg);
            lemma_with_row_same_text(g, y as int, repaint_removed(r, x as int, chr.fg));
        }
        if buffer.line(y).is_none() {
            return ;
        }
        let width = buffer.width(y);
        if chr.fg == COMMENT_0 || chr.fg == COMMENT_1 {
            if chr.fg == COMMENT_1 && x > 0 {
                match buffer.get_mut(x - 1, y) {
                    Some(lead) => {
                        lead.fg = DEFAULT;
                    },
                    None => {},
                }
            }
            let ghost reset = if chr.fg == COMMENT_1 {
                paint(r, x - 1, DEFAULT)
            } else {
                r
            };
            let ghost mut cur = reset;
            assert(buffer@ =~= with_row(g, y as int, reset));
            let mut i = x;
            while i < width
                invariant
                    x <= i,
                    row(g, y as int) is Some,
                    buffer@ == with_row(g, y as int, cur),
                    buffer.engine() == old(buffer).engine(),
                    update_from(cur, i as int, width as int) == update_from(
                        reset,
                        x as int,
                        width as int,
                    ),
                decreases width - i,
            {
                proof {
                    lemma_with_row_twice(g, y as int, cur, update_row(cur, i as int));
                }
                self.update(i, y, buffer);
                proof {
                    cur = update_row(cur, i as int);
                }
                i += 1;
            }
        } else {
            if x != 0 {
                proof {
                    let left = update_row(r, x - 1);
                    lemma_with_row_twice(g, y as int, left, update_row(left, x as int));
                }
                self.update(x - 1, y, buffer);
            }
            self.update(x, y, buffer);
        }
    }
}

/// The highlighters a buffer can be made with.
#[derive(Clone, Copy, Debug)]
pub enum Highlighter {
    Plain(Plain),
    Rust(Rust),
}

impl Highlighter {
    /// The grid `g` after the highlighter has reacted to the insertion of
    /// `chr` at column `x` of line `y`.
    pub open spec fn inserted(self, g: Grid, x: int, y: int, chr: char) -> Grid {
        match self {
            Highlighter::Plain(e) => e.inserted(g, x, y, chr),
            Highlighter::Rust(e) => e.inserted(g, x, y, chr),
        }
    }

    /// The grid `g` after the highlighter has reacted to the removal of the
    /// cell `chr` from column `x` of line `y`.
    pub open spec fn removed(self, g: Grid, x: int, y: int, chr: Char) -> Grid {
        match self {
            Highlighter::Plain(e) => e.removed(g, x, y, chr),
            Highlighter::Rust(e) => e.removed(g, x, y, chr),
        }
    }

    /// Hands the insertion of `chr` at column `x` of line `y` to the
    /// highlighter. Only foregrounds change.
    pub fn insert(&mut self, x: usize, y: usize, chr: char, buffer: &mut Buffer)
        ensures
            *final(self) == *old(self),
            final(buffer)@ == old(self).inserted(old(buffer)@, x as int, y as int, chr),
            same_text(old(buffer)@, final(buffer)@),
            final(buffer).engine() == old(buffer).engine(),
    {
        match self {
            Highlighter::Plain(e) => e.insert(x, y, chr, buffer),
            Highlighter::Rust(e) => e.insert(x, y, chr, buffer),
        }
    }

    /// Hands the removal of the cell `chr` from column `x` of line `y` to the
    /// highlighter. Only foregrounds change.
    pub fn remove(&mut self, x: usize, y: usize, chr: &Char, buffer: &mut Buffer)
        ensures
            *final(self) == *old(self),
            final(buffer)@ == old(self).removed(old(buffer)@, x as int, y as int, *chr),
            same_text(old(buffer)@, final(buffer)@),
            final(buffer).engine() == old(buffer).engine(),
    {
        match self {
            Highlighter::Plain(e) => e.remove(x, y, chr, buffer),
            Highlighter::Rust(e) => e.remove(x, y, chr, buffer),
        }
    }
}

} // verus!
