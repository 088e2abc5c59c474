//! Laws of the highlighters and of the structural edits.

use vstd::prelude::*;
use crate::buffer::{insertion, removal, Char};
use crate::grid::{
    cell, insert_char, insert_row, lemma_insert_char_same_text, lemma_remove_char_same_text,
    lemma_same_row_text_trans, lemma_same_text_cell, lemma_same_text_refl, lemma_same_text_trans,
    lemma_with_row_same_text, lemma_with_row_twice, line_of, remove_char, row, same_glyph,
    same_text, Grid, Row,
};
use crate::highlight::{
    filled_until, hit, infer_row, inherited, repaint_inserted, lemma_infer_row_same_text,
    lemma_repaint_inserted_same_text, lemma_paint_same_text, lemma_paint_span_same_text,
    lemma_repaint_removed_same_text, lemma_run, lemma_run_filled, lemma_scan_same_text, paint,
    paint_span, painted, repaint_removed, scan_end, scan_start, scan_text, token_color, update_row,
    Pattern, DEFAULT,
};
use crate::sparse::at;
use crate::syntax::{updated, Highlighter};

verus! {

/// A token that was coloured from a seed keeps its colour when it is coloured
/// again from that colour.
proof fn lemma_token_color_stable(seeded: usize, text: Seq<char>)
    ensures
        token_color(token_color(seeded, text), text) == token_color(seeded, text),
{
}

/// A token that was coloured from what its cell took over from the left keeps
/// its colour when the cell takes over from that colour.
proof fn lemma_token_color_inherited(left: usize, quote: bool, text: Seq<char>)
    ensures
        token_color(inherited(token_color(inherited(left, quote), text), quote), text)
            == token_color(inherited(left, quote), text),
{
}

/// Updating the token round a column twice in a row gives the line that one
/// update gives: every cell has the same category after the second update as
/// after the first.
pub proof fn lemma_update_row_idempotent(r: Row, x: int)
    ensures
        update_row(update_row(r, x), x) == update_row(r, x),
{
    let p = Pattern::Alphanumeric;
    let r1 = infer_row(r, x);
    match at(r1, x) {
        None => {},
        Some(c) => {
            let s = scan_start(r1, x, p);
            let e = scan_end(r1, x, p);
            let t = scan_text(r1, x, p);
            let color = token_color(c.fg, t);
            let u = paint_span(r1, s, e, color);
            assert(u == update_row(r, x));
            let r2 = infer_row(u, x);
            lemma_paint_span_same_text(r1, s, e, color);
            lemma_infer_row_same_text(u, x);
            lemma_same_row_text_trans(r1, u, r2);
            lemma_scan_same_text(r1, r2, x, p);
            if hit(r1, x, p) {
                lemma_run(r1, x, p);
                lemma_run_filled(r1, x, p);
                lemma_run_filled(r2, x, p);
                assert(filled_until(r1, s, e) == e);
                assert(filled_until(r2, s, e) == e);
                assert(u == painted(r1, s, e, color));
                let c2 = r2[x];
                if s < x {
                    lemma_token_color_inherited(r[x - 1]->0.fg, c.chr == '"', t);
                } else {
                    lemma_token_color_stable(c.fg, t);
                }
                let color2 = token_color(r2[x]->0.fg, t);
                assert(color2 == color);
                assert(painted(r2, s, e, color) =~= u);
            } else {
                assert(u =~= r1);
                assert(r2 =~= r1);
                assert(paint_span(r2, s, e, token_color(r2[x]->0.fg, t)) =~= r2);
            }
        },
    }
}

/// Updating the token round a cell twice in a row gives the grid that one
/// update gives.
pub proof fn lemma_update_idempotent(g: Grid, x: int, y: int)
    ensures
        updated(updated(g, x, y), x, y) == updated(g, x, y),
{
    let r = line_of(g, y);
    lemma_update_row_idempotent(r, x);
    lemma_with_row_twice(g, y, update_row(r, x), update_row(r, x));
}

/// Whatever highlighter reacts to an insertion, the grid keeps its text.
pub proof fn lemma_inserted_same_text(engine: Highlighter, g: Grid, x: int, y: int, chr: char)
    ensures
        same_text(g, engine.inserted(g, x, y, chr)),
{
    let r = line_of(g, y);
    match engine {
        Highlighter::Plain(e) => {
            lemma_paint_same_text(r, x, DEFAULT);
            lemma_with_row_same_text(g, y, paint(r, x, DEFAULT));
        },
        Highlighter::Rust(e) => {
            lemma_repaint_inserted_same_text(r, x);
            lemma_with_row_same_text(g, y, repaint_inserted(r, x));
        },
    }
}

/// Whatever highlighter reacts to a removal, the grid keeps its text.
pub proof fn lemma_removed_same_text(engine: Highlighter, g: Grid, x: int, y: int, chr: Char)
    ensures
        same_text(g, engine.removed(g, x, y, chr)),
{
    let r = line_of(g, y);
    match engine {
        Highlighter::Plain(e) => {
            lemma_same_text_refl(g);
        },
        Highlighter::Rust(e) => {
            lemma_repaint_removed_same_text(r, x, chr.fg);
            lemma_with_row_same_text(g, y, repaint_removed(r, x, chr.fg));
        },
    }
}

/// An insertion moves the cells of its line from column `x` on one column to
/// the right, puts the new cell at `x`, and leaves every other cell where it
/// was. The highlighter changes at most foregrounds.
pub proof fn lemma_insert_shifts(
    engine: Option<Highlighter>,
    g: Grid,
    x: int,
    y: int,
    chr: Char,
    i: int,
    j: int,
)
    requires
        0 <= x,
        0 <= y,
        0 <= i,
        0 <= j,
    ensures
        same_text(insertion(engine, g, x, y, chr), insert_char(g, x, y, chr)),
        j == y && i < x ==> same_glyph(cell(insertion(engine, g, x, y, chr), i, j), cell(g, i, j)),
        same_glyph(cell(insertion(engine, g, x, y, chr), x, y), Some(chr)),
        j == y && i >= x ==> same_glyph(
            cell(insertion(engine, g, x, y, chr), i + 1, j),
            cell(g, i, j),
        ),
        j != y ==> same_glyph(cell(insertion(engine, g, x, y, chr), i, j), cell(g, i, j)),
{
    let plain = insert_char(g, x, y, chr);
    let after = insertion(engine, g, x, y, chr);
    match engine {
        Some(e) => {
            lemma_inserted_same_text(e, plain, x, y, chr.chr);
        },
        None => {
            lemma_same_text_refl(plain);
        },
    }
    crate::grid::lemma_same_text_sym(plain, after);
    lemma_same_text_cell(after, plain, x, y);
    lemma_same_text_cell(after, plain, i, j);
    lemma_same_text_cell(after, plain, i + 1, j);
}

/// A removal moves the cells of its line behind column `x` one column to the
/// left and leaves every other cell where it was. The highlighter changes at
/// most foregrounds.
pub proof fn lemma_remove_shifts(
    engine: Option<Highlighter>,
    g: Grid,
    x: int,
    y: int,
    i: int,
    j: int,
)
    requires
        0 <= x,
        0 <= y,
        0 <= i,
        0 <= j,
    ensures
        same_text(removal(engine, g, x, y), remove_char(g, x, y)),
        j == y && i < x ==> same_glyph(cell(removal(engine, g, x, y), i, j), cell(g, i, j)),
        j == y && i >= x ==> same_glyph(cell(removal(engine, g, x, y), i, j), cell(g, i + 1, j)),
        j != y ==> same_glyph(cell(removal(engine, g, x, y), i, j), cell(g, i, j)),
{
    let plain = remove_char(g, x, y);
    let after = removal(engine, g, x, y);
    match (engine, cell(g, x, y)) {
        (Some(e), Some(c)) => {
            lemma_removed_same_text(e, plain, x, y, c);
        },
        _ => {
            lemma_same_text_refl(plain);
        },
    }
    crate::grid::lemma_same_text_sym(plain, after);
    lemma_same_text_cell(after, plain, i, j);
}

/// An insertion makes its line one column longer than the longer of the line
/// and the gap up to `x`, whatever the highlighter paints.
pub proof fn lemma_insertion_len(engine: Option<Highlighter>, g: Grid, x: int, y: int, chr: Char)
    requires
        0 <= x,
        0 <= y,
    ensures
        row(insertion(engine, g, x, y, chr), y) is Some,
        g.len() > y ==> insertion(engine, g, x, y, chr).len() == g.len(),
        g.len() <= y ==> insertion(engine, g, x, y, chr).len() == y + 1,
        line_of(g, y).len() > x ==> line_of(insertion(engine, g, x, y, chr), y).len() == line_of(
            g,
            y,
        ).len() + 1,
        line_of(g, y).len() <= x ==> line_of(insertion(engine, g, x, y, chr), y).len() == x + 1,
{
    lemma_insert_shifts(engine, g, x, y, chr, 0, 0);
    lemma_same_text_cell(insertion(engine, g, x, y, chr), insert_char(g, x, y, chr), 0, y);
}

/// A removal makes its line one column shorter where the column was there,
/// whatever the highlighter paints, and leaves the lines in place.
pub proof fn lemma_removal_len(engine: Option<Highlighter>, g: Grid, x: int, y: int)
    requires
        0 <= x,
        0 <= y,
    ensures
        row(removal(engine, g, x, y), y) is Some <==> row(g, y) is Some,
        removal(engine, g, x, y).len() == g.len(),
        line_of(removal(engine, g, x, y), y).len() == if x < line_of(g, y).len() {
            line_of(g, y).len() - 1
        } else {
            line_of(g, y).len() as int
        },
{
    lemma_remove_shifts(engine, g, x, y, 0, 0);
    lemma_same_text_cell(removal(engine, g, x, y), remove_char(g, x, y), 0, y);
}

/// One edit of a buffer.
pub enum Edit {
    /// `Buffer::insert` of `chr` at column `x` of line `y`.
    Insert { x: usize, y: usize, chr: Char },
    /// `Buffer::remove` at column `x` of line `y`.
    Remove { x: usize, y: usize },
}

/// The grid after one edit and the highlighter's reaction to it.
pub open spec fn applied(engine: Option<Highlighter>, g: Grid, edit: Edit) -> Grid {
    match edit {
        Edit::Insert { x, y, chr } => insertion(engine, g, x as int, y as int, chr),
        Edit::Remove { x, y } => removal(engine, g, x as int, y as int),
    }
}

/// The grid after a sequence of edits, each with the highlighter's reaction.
pub open spec fn replayed(engine: Option<Highlighter>, g: Grid, edits: Seq<Edit>) -> Grid
    decreases edits.len(),
{
    if edits.len() == 0 {
        g
    } else {
        applied(engine, replayed(engine, g, edits.drop_last()), edits.last())
    }
}

/// No index drifts: after any sequence of insertions and removals, with any
/// highlighter attached, every character stands exactly where the bare
/// structural edits put it. The highlighter never moves, adds or drops a
/// cell, so the columns and lines that a later edit names mean the same with
/// it as without it.
pub proof fn lemma_replay_keeps_text(engine: Option<Highlighter>, g: Grid, edits: Seq<Edit>)
    ensures
        same_text(replayed(engine, g, edits), replayed(None, g, edits)),
    decreases edits.len(),
{
    if edits.len() == 0 {
        lemma_same_text_refl(g);
    } else {
        let a = replayed(engine, g, edits.drop_last());
        let b = replayed(None, g, edits.drop_last());
        lemma_replay_keeps_text(engine, g, edits.drop_last());
        match edits.last() {
            Edit::Insert { x, y, chr } => {
                lemma_insert_shifts(engine, a, x as int, y as int, chr, 0, 0);
                lemma_insert_char_same_text(a, b, x as int, y as int, chr);
                lemma_same_text_trans(
                    insertion(engine, a, x as int, y as int, chr),
                    insert_char(a, x as int, y as int, chr),
                    insert_char(b, x as int, y as int, chr),
                );
            },
            Edit::Remove { x, y } => {
                lemma_remove_shifts(engine, a, x as int, y as int, 0, 0);
                lemma_remove_char_same_text(a, b, x as int, y as int);
                lemma_same_text_trans(
                    removal(engine, a, x as int, y as int),
                    remove_char(a, x as int, y as int),
                    remove_char(b, x as int, y as int),
                );
            },
        }
    }
}

/// An insertion past the end of a line fills the gap with holes: the columns
/// between the old length and `x` hold nothing, column `x` holds the new
/// cell, and the line ends there.
pub proof fn lemma_insert_past_end(engine: Option<Highlighter>, g: Grid, x: int, y: int, chr: Char)
    requires
        0 <= y,
        line_of(g, y).len() <= x,
    ensures
        line_of(insertion(engine, g, x, y, chr), y).len() == x + 1,
        forall|i: int|
            line_of(g, y).len() <= i < x ==> cell(insertion(engine, g, x, y, chr), i, y) is None,
        same_glyph(cell(insertion(engine, g, x, y, chr), x, y), Some(chr)),
{
    let after = insertion(engine, g, x, y, chr);
    let plain = insert_char(g, x, y, chr);
    lemma_insert_shifts(engine, g, x, y, chr, 0, 0);
    lemma_same_text_cell(after, plain, x, y);
    assert forall|i: int| line_of(g, y).len() <= i < x implies cell(after, i, y) is None by {
        lemma_same_text_cell(after, plain, i, y);
    }
}

/// A line that was never written is absent; a line that was inserted without
/// cells is present and empty. The two differ.
pub proof fn lemma_absent_or_empty(g: Grid, y: int)
    requires
        0 <= y,
    ensures
        row(Seq::<Option<Row>>::empty(), y) is None,
        row(g, y + g.len()) is None,
        row(insert_row(g, y, Seq::<Option<Char>>::empty()), y) == Some(
            Seq::<Option<Char>>::empty(),
        ),
{
}

} // verus!
