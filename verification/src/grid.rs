//! The mathematical model of the text grid.
//!
//! A grid is a sequence of lines. A line is absent, where nothing was ever
//! written at its index, or present: a sequence of columns, each a hole or a
//! cell. The functions here say what the structural edits do to that model;
//! the buffer's contracts are stated over them.

use vstd::prelude::*;
use crate::buffer::Char;
use crate::sparse::{at, inserted, padded, removed};

verus! {

/// A present line: its columns in order, `None` for a hole.
pub type Row = Seq<Option<Char>>;

/// The lines in order, `None` for an absent line.
pub type Grid = Seq<Option<Row>>;

/// The line at index `y`, absent where `y` was never written.
pub open spec fn row(g: Grid, y: int) -> Option<Row> {
    at(g, y)
}

/// The cell at column `x` of line `y`: `None` for a hole, an absent line, or a
/// column outside the line.
pub open spec fn cell(g: Grid, x: int, y: int) -> Option<Char> {
    match at(g, y) {
        Some(r) => at(r, x),
        None => None,
    }
}

/// The columns of line `y`; an absent line has none.
pub open spec fn line_of(g: Grid, y: int) -> Row {
    match at(g, y) {
        Some(r) => r,
        None => Seq::empty(),
    }
}

/// `g` with the line at `y`, where it is present, replaced by `r`.
pub open spec fn with_row(g: Grid, y: int, r: Row) -> Grid {
    match at(g, y) {
        Some(_) => g.update(y, Some(r)),
        None => g,
    }
}

/// `g` with the cell at `(x, y)`, where there is one, replaced by `c`.
pub open spec fn with_cell(g: Grid, x: int, y: int, c: Char) -> Grid {
    match cell(g, x, y) {
        Some(_) => g.update(y, Some(g[y]->0.update(x, Some(c)))),
        None => g,
    }
}

/// `g` after `c` was inserted at column `x` of line `y`. The lines are padded
/// with absent ones up to `y`, an absent line `y` becomes an empty present
/// one, and the columns from `x` on move right by one.
pub open spec fn insert_char(g: Grid, x: int, y: int, c: Char) -> Grid {
    let rows = padded(g, y + 1);
    let line = match rows[y] {
        Some(r) => r,
        None => Seq::empty(),
    };
    rows.update(y, Some(inserted(line, x, c)))
}

/// `g` after the column `x` of line `y` was removed: the columns behind it
/// move left by one. An absent line is left alone.
pub open spec fn remove_char(g: Grid, x: int, y: int) -> Grid {
    match at(g, y) {
        Some(r) => g.update(y, Some(removed(r, x))),
        None => g,
    }
}

/// `g` after the present line `r` was inserted at index `y`: the lines from
/// `y` on move down by one.
pub open spec fn insert_row(g: Grid, y: int, r: Row) -> Grid {
    inserted(g, y, r)
}

/// `g` after the line at index `y` was removed: the lines behind it move up by
/// one.
pub open spec fn remove_row(g: Grid, y: int) -> Grid {
    removed(g, y)
}

/// Two cells that differ at most in their foreground.
pub open spec fn same_glyph(a: Option<Char>, b: Option<Char>) -> bool {
    match (a, b) {
        (Some(p), Some(q)) => p.chr == q.chr && p.bg == q.bg && p.font == q.font,
        (None, None) => true,
        _ => false,
    }
}

/// Two lines of one shape whose cells differ at most in their foreground.
pub open spec fn same_row_text(a: Row, b: Row) -> bool {
    &&& a.len() == b.len()
    &&& forall|x: int| 0 <= x < a.len() ==> same_glyph(#[trigger] a[x], b[x])
}

/// Two grids of one shape whose cells differ at most in their foreground:
/// the same lines are absent, the same columns are holes, and each cell has
/// the same character, background and font in both.
pub open spec fn same_text(a: Grid, b: Grid) -> bool {
    &&& a.len() == b.len()
    &&& forall|y: int|
        0 <= y < a.len() ==> match (#[trigger] a[y], b[y]) {
            (Some(p), Some(q)) => same_row_text(p, q),
            (None, None) => true,
            _ => false,
        }
}

/// Replacing a line by itself changes nothing.
pub proof fn lemma_with_row_same(g: Grid, y: int)
    ensures
        with_row(g, y, line_of(g, y)) == g,
{
    assert(with_row(g, y, line_of(g, y)) =~= g);
}

/// Of two replacements of one line the second one counts.
pub proof fn lemma_with_row_twice(g: Grid, y: int, a: Row, b: Row)
    ensures
        with_row(with_row(g, y, a), y, b) == with_row(g, y, b),
        row(g, y) is Some ==> line_of(with_row(g, y, a), y) == a,
        row(g, y) is None ==> line_of(with_row(g, y, a), y) == line_of(g, y),
        row(with_row(g, y, a), y) is Some <==> row(g, y) is Some,
{
    assert(with_row(with_row(g, y, a), y, b) =~= with_row(g, y, b));
}

/// Replacing a line by one of the same text keeps the text of the grid.
pub proof fn lemma_with_row_same_text(g: Grid, y: int, r: Row)
    requires
        same_row_text(line_of(g, y), r),
    ensures
        same_text(g, with_row(g, y, r)),
{
    let h = with_row(g, y, r);
    assert forall|j: int| 0 <= j < g.len() implies match (#[trigger] g[j], h[j]) {
        (Some(p), Some(q)) => same_row_text(p, q),
        (None, None) => true,
        _ => false,
    } by {
        if j != y {
            lemma_same_row_text_refl(line_of(g, j));
        }
    }
}

/// Every line has the text it has.
pub proof fn lemma_same_row_text_refl(r: Row)
    ensures
        same_row_text(r, r),
{
}

/// Having the same text is transitive.
pub proof fn lemma_same_row_text_trans(a: Row, b: Row, c: Row)
    requires
        same_row_text(a, b),
        same_row_text(b, c),
    ensures
        same_row_text(a, c),
{
    assert forall|x: int| 0 <= x < a.len() implies same_glyph(#[trigger] a[x], c[x]) by {
        assert(same_glyph(a[x], b[x]));
        assert(same_glyph(b[x], c[x]));
    }
}

/// Having the same text is symmetric.
pub proof fn lemma_same_text_sym(a: Grid, b: Grid)
    requires
        same_text(a, b),
    ensures
        same_text(b, a),
{
    assert forall|y: int| 0 <= y < b.len() implies match (#[trigger] b[y], a[y]) {
        (Some(p), Some(q)) => same_row_text(p, q),
        (None, None) => true,
        _ => false,
    } by {
        match (a[y], b[y]) {
            (Some(p), Some(q)) => {
                assert forall|x: int| 0 <= x < q.len() implies same_glyph(
                    #[trigger] q[x],
                    p[x],
                ) by {
                    assert(same_glyph(p[x], q[x]));
                }
            },
            _ => {},
        }
    }
}

/// Having the same text is transitive for grids too.
pub proof fn lemma_same_text_trans(a: Grid, b: Grid, c: Grid)
    requires
        same_text(a, b),
        same_text(b, c),
    ensures
        same_text(a, c),
{
    assert forall|y: int| 0 <= y < a.len() implies match (#[trigger] a[y], c[y]) {
        (Some(p), Some(q)) => same_row_text(p, q),
        (None, None) => true,
        _ => false,
    } by {
        match (a[y], b[y], c[y]) {
            (Some(p), Some(m), Some(q)) => {
                lemma_same_row_text_trans(p, m, q);
            },
            _ => {},
        }
    }
}

/// Grids with the same text have cells in the same places.
pub proof fn lemma_same_text_cell(a: Grid, b: Grid, x: int, y: int)
    requires
        same_text(a, b),
    ensures
        same_glyph(cell(a, x, y), cell(b, x, y)),
        row(a, y) is Some <==> row(b, y) is Some,
        line_of(a, y).len() == line_of(b, y).len(),
{
    if 0 <= y < a.len() {
        match (a[y], b[y]) {
            (Some(p), Some(q)) => {
                if 0 <= x < p.len() {
                    assert(same_glyph(p[x], q[x]));
                }
            },
            _ => {},
        }
    }
}

/// Inserting one cell into two grids with the same text leaves them with the
/// same text.
pub proof fn lemma_insert_char_same_text(a: Grid, b: Grid, x: int, y: int, c: Char)
    requires
        same_text(a, b),
        0 <= x,
        0 <= y,
    ensures
        same_text(insert_char(a, x, y, c), insert_char(b, x, y, c)),
{
    let ia = insert_char(a, x, y, c);
    let ib = insert_char(b, x, y, c);
    assert(ia.len() == ib.len());
    assert forall|j: int| 0 <= j < ia.len() implies match (#[trigger] ia[j], ib[j]) {
        (Some(p), Some(q)) => same_row_text(p, q),
        (None, None) => true,
        _ => false,
    } by {
        if j == y {
            let la = line_of(a, y);
            let lb = line_of(b, y);
            lemma_same_text_cell(a, b, 0, y);
            let p = ia[j]->0;
            let q = ib[j]->0;
            assert(p == inserted(la, x, c));
            assert(q == inserted(lb, x, c));
            assert forall|k: int| 0 <= k < p.len() implies same_glyph(#[trigger] p[k], q[k]) by {
                if k < x {
                    lemma_same_text_cell(a, b, k, y);
                } else if k > x {
                    lemma_same_text_cell(a, b, k - 1, y);
                }
            }
        } else if j < a.len() {
            assert(ia[j] == a[j]);
            assert(ib[j] == b[j]);
        }
    }
}

/// Removing one column from two grids with the same text leaves them with
/// the same text.
pub proof fn lemma_remove_char_same_text(a: Grid, b: Grid, x: int, y: int)
    requires
        same_text(a, b),
    ensures
        same_text(remove_char(a, x, y), remove_char(b, x, y)),
{
    let ra = remove_char(a, x, y);
    let rb = remove_char(b, x, y);
    assert forall|j: int| 0 <= j < ra.len() implies match (#[trigger] ra[j], rb[j]) {
        (Some(p), Some(q)) => same_row_text(p, q),
        (None, None) => true,
        _ => false,
    } by {
        if j == y {
            lemma_same_text_cell(a, b, 0, y);
            match (ra[j], rb[j]) {
                (Some(p), Some(q)) => {
                    assert forall|k: int| 0 <= k < p.len() implies same_glyph(
                        #[trigger] p[k],
                        q[k],
                    ) by {
                        if 0 <= x < line_of(a, y).len() && k >= x {
                            lemma_same_text_cell(a, b, k + 1, y);
                        } else {
                            lemma_same_text_cell(a, b, k, y);
                        }
                    }
                },
                _ => {},
            }
        } else {
            assert(ra[j] == a[j]);
            assert(rb[j] == b[j]);
        }
    }
}

/// Every grid has the text it has.
pub proof fn lemma_same_text_refl(g: Grid)
    ensures
        same_text(g, g),
{
    assert forall|j: int| 0 <= j < g.len() implies match (#[trigger] g[j], g[j]) {
        (Some(p), Some(q)) => same_row_text(p, q),
        (None, None) => true,
        _ => false,
    } by {
        lemma_same_row_text_refl(line_of(g, j));
    }
}

} // verus!
