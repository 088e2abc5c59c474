//! The text buffer: a sparse grid of styled characters with an optional
//! highlighter that repaints the neighbourhood of every edit.

use vstd::prelude::*;
use crate::grid::{
    cell, insert_char, insert_row, remove_char, remove_row, row, with_cell, Grid, Row,
};
use crate::sparse::{padded, SparseVec};
use crate::syntax::Highlighter;

verus! {

/// One character slot: the character and its three style tags.
#[derive(Clone, Copy, Debug, PartialEq, Eq, Structural)]
pub struct Char {
    pub chr: char,
    pub bg: usize,
    pub fg: usize,
    pub font: usize,
}

/// The cell for `chr` in the default style.
pub open spec fn fresh(chr: char) -> Char {
    Char { chr: chr, bg: 0, fg: 1, font: 0 }
}

impl Char {
    /// A cell for `chr` in the default style.
    pub fn new(chr: char) -> (c: Char)
        ensures
            c == fresh(chr),
    {
        Char { chr: chr, bg: 0, fg: 1, font: 0 }
    }
}

/// What a stored line stands for in the model.
pub open spec fn line_view(line: Option<SparseVec<Char>>) -> Option<Row> {
    match line {
        Some(l) => Some(l@),
        None => None,
    }
}

/// What the stored lines stand for in the model.
pub open spec fn lines_view(lines: Seq<Option<SparseVec<Char>>>) -> Grid {
    Seq::new(lines.len(), |y: int| line_view(lines[y]))
}

/// The grid after the highlighter, if one is attached, has reacted to the
/// insertion of `chr` at `(x, y)`.
pub open spec fn after_insert(
    engine: Option<Highlighter>,
    g: Grid,
    x: int,
    y: int,
    chr: char,
) -> Grid {
    match engine {
        Some(e) => e.inserted(g, x, y, chr),
        None => g,
    }
}

/// The grid after the highlighter, if one is attached, has reacted to the
/// removal of `taken` from `(x, y)`. A removed hole is not reported to it.
pub open spec fn after_remove(
    engine: Option<Highlighter>,
    g: Grid,
    x: int,
    y: int,
    taken: Option<Char>,
) -> Grid {
    match (engine, taken) {
        (Some(e), Some(c)) => e.removed(g, x, y, c),
        _ => g,
    }
}

/// The grid after `chr` was inserted at `(x, y)` of `g` and the highlighter has
/// reacted: what `Buffer::insert` leaves.
pub open spec fn insertion(
    engine: Option<Highlighter>,
    g: Grid,
    x: int,
    y: int,
    chr: Char,
) -> Grid {
    after_insert(engine, insert_char(g, x, y, chr), x, y, chr.chr)
}

/// The grid after the column `x` of line `y` was removed from `g` and the
/// highlighter has reacted: what `Buffer::remove` leaves.
pub open spec fn removal(engine: Option<Highlighter>, g: Grid, x: int, y: int) -> Grid {
    after_remove(engine, remove_char(g, x, y), x, y, cell(g, x, y))
}

/// A grid of cells together with the highlighter chosen when it was made.
pub struct Buffer {
    buffer: SparseVec<SparseVec<Char>>,
    syntax: Option<Highlighter>,
}

impl View for Buffer {
    type V = Grid;

    closed spec fn view(&self) -> Grid {
        lines_view(self.buffer@)
    }
}

impl Buffer {
    /// The attached highlighter; `None` where colouring is disabled.
    pub closed spec fn engine(&self) -> Option<Highlighter> {
        self.syntax
    }

    /// The number of lines and the length of every present line fit the
    /// machine's index type.
    pub proof fn lemma_fits(&self)
        ensures
            self@.len() <= usize::MAX,
            forall|y: int|
                0 <= y < self@.len() && (#[trigger] self@[y]) is Some ==> self@[y]->0.len()
                    <= usize::MAX,
    {
        self.buffer.lemma_len_fits();
        assert forall|y: int|
            0 <= y < self@.len() && (#[trigger] self@[y]) is Some implies self@[y]->0.len()
            <= usize::MAX by {
            self.buffer@[y]->0.lemma_len_fits();
        }
    }

    /// The empty grid with `syntax` attached.
    pub fn new(syntax: Option<Highlighter>) -> (b: Buffer)
        ensures
            b@ == Seq::<Option<Row>>::empty(),
            b.engine() == syntax,
    {
        let b = Buffer { buffer: SparseVec::new(), syntax: syntax };
        assert(b@ =~= Seq::<Option<Row>>::empty());
        b
    }

    /// The line at index `y`.
    pub fn line(&self, y: usize) -> (r: &Option<SparseVec<Char>>)
        ensures
            line_view(*r) == row(self@, y as int),
    {
        self.buffer.slot(y)
    }

    /// A mutable reference to the line at index `y`. Where `y` lies past the
    /// last line, the grid is first padded with absent lines up to and
    /// including `y`.
    pub fn line_mut(&mut self, y: usize) -> (r: &mut Option<SparseVec<Char>>)
        ensures
            line_view(*r) == row(old(self)@, y as int),
            final(self)@ == padded(old(self)@, y + 1).update(y as int, line_view(*final(r))),
            final(self).engine() == old(self).engine(),
    {
        proof {
            assert forall|lines: Seq<Option<SparseVec<Char>>>, l: Option<SparseVec<Char>>|
                lines_view(#[trigger] padded(lines, y + 1).update(y as int, l))
                    == padded(lines_view(lines), y + 1).update(y as int, line_view(l)) by {
                assert(lines_view(padded(lines, y + 1).update(y as int, l))
                    =~= padded(lines_view(lines), y + 1).update(y as int, line_view(l)));
            }
        }
        self.buffer.slot_mut(y)
    }

    /// The cell at column `x` of line `y`, if there is one.
    pub fn get(&self, x: usize, y: usize) -> (r: Option<&Char>)
        ensures
            r == match cell(self@, x as int, y as int) {
                Some(c) => Some(&c),
                None => None,
            },
    {
        match self.buffer.get(y) {
            Some(line) => line.get(x),
            None => None,
        }
    }

    /// A mutable reference to the cell at column `x` of line `y`, if there is
    /// one. The grid keeps its shape; only that cell can change.
    pub fn get_mut(&mut self, x: usize, y: usize) -> (r: Option<&mut Char>)
        ensures
            match r {
                Some(p) => {
                    &&& cell(old(self)@, x as int, y as int) == Some(*p)
                    &&& final(self)@ == with_cell(old(self)@, x as int, y as int, *final(p))
                },
                None => {
                    &&& cell(old(self)@, x as int, y as int) is None
                    &&& final(self)@ == old(self)@
                },
            },
            final(self).engine() == old(self).engine(),
    {
        proof {
            assert forall|lines: Seq<Option<SparseVec<Char>>>, l: SparseVec<Char>|
                0 <= y < lines.len() implies lines_view(#[trigger] lines.update(y as int, Some(l)))
                    == lines_view(lines).update(y as int, Some(l@)) by {
                assert(lines_view(lines.update(y as int, Some(l)))
                    =~= lines_view(lines).update(y as int, Some(l@)));
            }
            assert forall|g: Grid| 0 <= y < g.len() && g[y as int] is Some
                implies #[trigger] g.update(y as int, Some(g[y as int]->0)) == g by {
                assert(g.update(y as int, Some(g[y as int]->0)) =~= g);
            }
        }
        match self.buffer.get_mut(y) {
            Some(line) => line.get_mut(x),
            None => None,
        }
    }

    /// Inserts `chr` at column `x` of line `y`, then lets the highlighter
    /// repaint the neighbourhood. An absent line `y` becomes present first;
    /// the columns from `x` on move right by one; the columns between the
    /// line's end and `x`, if any, become holes.
    pub fn insert(&mut self, x: usize, y: usize, chr: Char)
        ensures
            final(self)@ == insertion(old(self).engine(), old(self)@, x as int, y as int, chr),
            final(self).engine() == old(self).engine(),
    {
        let ghost g = self@;
        let chr_chr = chr.chr;
        let line_maybe = self.buffer.slot_mut(y);
        if line_maybe.is_none() {
            *line_maybe = Some(SparseVec::new());
        }
        match line_maybe {
            Some(line) => {
                line.insert(x, chr);
            },
            None => {},
        }
        assert(self@ =~= insert_char(g, x as int, y as int, chr));
        let syntax_maybe = self.syntax.take();
        match syntax_maybe {
            Some(mut syntax) => {
                syntax.insert(x, y, chr_chr, self);
                self.syntax = Some(syntax);
            },
            None => {},
        }
    }

    /// Removes the column `x` of line `y` and returns the cell it held; the
    /// columns behind it move left by one. Where a cell was removed, the
    /// highlighter repaints the neighbourhood. Nothing happens on an absent
    /// line.
    pub fn remove(&mut self, x: usize, y: usize) -> (taken: Option<Char>)
        ensures
            taken == cell(old(self)@, x as int, y as int),
            final(self)@ == removal(old(self).engine(), old(self)@, x as int, y as int),
            final(self).engine() == old(self).engine(),
    {
        let ghost g = self@;
        let chr_maybe = match self.buffer.get_mut(y) {
            Some(line) => line.remove(x),
            None => {
                return None;
            },
        };
        assert(self@ =~= remove_char(g, x as int, y as int));
        match &chr_maybe {
            Some(chr) => {
                let syntax_maybe = self.syntax.take();
                match syntax_maybe {
                    Some(mut syntax) => {
                        syntax.remove(x, y, chr, self);
                        self.syntax = Some(syntax);
                    },
                    None => {},
                }
            },
            None => {},
        }
        chr_maybe
    }

    /// Inserts `line` as the line at index `y`; the lines from `y` on move
    /// down by one. The highlighter is not told.
    pub fn insert_line(&mut self, y: usize, line: SparseVec<Char>)
        ensures
            final(self)@ == insert_row(old(self)@, y as int, line@),
            final(self).engine() == old(self).engine(),
    {
        let ghost g = self@;
        self.buffer.insert(y, line);
        assert(self@ =~= insert_row(g, y as int, line@));
    }

    /// Removes the line at index `y` and returns it, if it was present; the
    /// lines behind it move up by one. The highlighter is not told.
    pub fn remove_line(&mut self, y: usize) -> (line: Option<SparseVec<Char>>)
        ensures
            line_view(line) == row(old(self)@, y as int),
            final(self)@ == remove_row(old(self)@, y as int),
            final(self).engine() == old(self).engine(),
    {
        let ghost g = self@;
        let line = self.buffer.remove(y);
        assert(self@ =~= remove_row(g, y as int));
        line
    }

    /// An iterator over the lines in order, the absent ones included.
    pub fn iter(&self) -> (it: std::slice::Iter<'_, Option<SparseVec<Char>>>)
        ensures
            lines_view(vstd::std_specs::slice::into_iter_elts(it)) == self@,
    {
        self.buffer.iter()
    }

    /// The number of lines, the absent ones up to the last line counted.
    pub fn height(&self) -> (n: usize)
        ensures
            n == self@.len(),
    {
        self.buffer.len()
    }

    /// The number of columns of the present line `y`, holes counted.
    pub fn width(&self, y: usize) -> (n: usize)
        requires
            row(self@, y as int) is Some,
        ensures
            n == row(self@, y as int)->0.len(),
    {
        match self.buffer.get(y) {
            Some(line) => line.len(),
            None => 0,
        }
    }
}

} // verus!
