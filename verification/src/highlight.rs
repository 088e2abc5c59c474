//! What the highlighters do to one line, as functions on the model.
//!
//! The foreground of a cell doubles as its highlight category. All context is
//! read from the line itself: the category of a cell is inferred from its left
//! neighbour, and a token is coloured as a whole.

use vstd::prelude::*;
use crate::buffer::Char;
use crate::chars::{alphanumeric, numeric, uppercase};
use crate::grid::{lemma_same_row_text_trans, same_glyph, same_row_text, Row};
use crate::sparse::at;

verus! {

/// A type or a constant: a token that starts with an uppercase letter.
pub const TYPE: usize = 4;

/// An identifier.
pub const IDENTIFIER: usize = 1;

/// A character inside a string literal.
pub const STRING: usize = 3;

/// The quote that opens a string literal.
pub const STRING_START: usize = STRING + 8;

/// The quote that closes a string literal.
pub const STRING_END: usize = STRING + 16;

/// A token that starts with a digit.
pub const NUMERIC: usize = 5;

/// A character behind a comment marker.
pub const COMMENT: usize = 7;

/// The first character of a comment marker.
pub const COMMENT_0: usize = COMMENT + 8;

/// The second character of a comment marker.
pub const COMMENT_1: usize = COMMENT + 16;

/// A keyword of the language.
pub const KEYWORD: usize = 2;

/// Anything else.
pub const DEFAULT: usize = 1;

/// The classes of characters a scan can follow.
#[derive(Clone, Copy, Debug, PartialEq, Eq)]
pub enum Pattern {
    /// The letters and digits that make up a token.
    Alphanumeric,
    /// The character that, twice in a row, starts a comment.
    Slash,
    /// The marker cells that a tab expands to.
    Tab,
}

impl Pattern {
    /// Whether `c` belongs to the class.
    pub open spec fn accepts(self, c: char) -> bool {
        match self {
            Pattern::Alphanumeric => alphanumeric(c),
            Pattern::Slash => c == '/',
            Pattern::Tab => c == '\t',
        }
    }

    /// Whether `c` belongs to the class.
    pub fn test(self, c: char) -> (b: bool)
        ensures
            b == self.accepts(c),
    {
        match self {
            Pattern::Alphanumeric => c.is_alphanumeric(),
            Pattern::Slash => c == '/',
            Pattern::Tab => c == '\t',
        }
    }
}

/// Whether column `i` holds a cell whose character the pattern accepts.
pub open spec fn hit(r: Row, i: int, p: Pattern) -> bool {
    match at(r, i) {
        Some(c) => p.accepts(c.chr),
        None => false,
    }
}

/// The first column of the unbroken run of hits that ends at column `x`.
pub open spec fn run_start(r: Row, x: int, p: Pattern) -> int
    decreases x,
{
    if x > 0 && hit(r, x - 1, p) {
        run_start(r, x - 1, p)
    } else {
        x
    }
}

/// The first column at or behind `x` that is no hit.
pub open spec fn run_end(r: Row, x: int, p: Pattern) -> int
    decreases r.len() - x,
{
    if hit(r, x, p) {
        run_end(r, x + 1, p)
    } else {
        x
    }
}

/// Where the scan from column `x` starts. From a hit it runs left over the
/// unbroken run of hits, and stops before a hole, a miss or the line's start.
/// From a cell that is no hit it shrinks to the empty range behind `x`; on a
/// hole it stays at `x`.
pub open spec fn scan_start(r: Row, x: int, p: Pattern) -> int {
    match at(r, x) {
        None => x,
        Some(c) => if p.accepts(c.chr) {
            run_start(r, x, p)
        } else {
            x + 1
        },
    }
}

/// Where the scan from column `x` ends: the first column at or behind `x`
/// that is no hit.
pub open spec fn scan_end(r: Row, x: int, p: Pattern) -> int {
    run_end(r, x, p)
}

/// The characters of the cells in the columns from `start` up to `end`.
pub open spec fn span_text(r: Row, start: int, end: int) -> Seq<char> {
    if start < end {
        Seq::new((end - start) as nat, |k: int| r[start + k]->0.chr)
    } else {
        Seq::empty()
    }
}

/// The text that the scan from column `x` covers.
pub open spec fn scan_text(r: Row, x: int, p: Pattern) -> Seq<char> {
    span_text(r, scan_start(r, x, p), scan_end(r, x, p))
}

/// `c` with the foreground `color`.
pub open spec fn dyed(c: Char, color: usize) -> Char {
    Char { chr: c.chr, bg: c.bg, fg: color, font: c.font }
}

/// `r` with the cell at column `x`, if there is one, painted in `color`.
pub open spec fn paint(r: Row, x: int, color: usize) -> Row {
    match at(r, x) {
        Some(c) => r.update(x, Some(dyed(c, color))),
        None => r,
    }
}

/// The first column from `from` on, and below `to`, that holds no cell; `to`
/// where every column in between holds one.
pub open spec fn filled_until(r: Row, from: int, to: int) -> int
    decreases to - from,
{
    if from < to && at(r, from) is Some {
        filled_until(r, from + 1, to)
    } else {
        from
    }
}

/// `r` with every cell in the columns from `start` up to `stop` painted in
/// `color`.
pub open spec fn painted(r: Row, start: int, stop: int, color: usize) -> Row {
    Seq::new(
        r.len(),
        |i: int|
            if start <= i < stop {
                match r[i] {
                    Some(c) => Some(dyed(c, color)),
                    None => None,
                }
            } else {
                r[i]
            },
    )
}

/// `r` with the cells in the columns from `start` up to `end` painted in
/// `color`. The painting stops without notice at the first column that holds
/// no cell.
pub open spec fn paint_span(r: Row, start: int, end: int, color: usize) -> Row {
    painted(r, start, filled_until(r, start, end), color)
}

/// The category that a cell takes over from the category `left` of its left
/// neighbour, `quote` telling whether the cell holds a quote.
pub open spec fn inherited(left: usize, quote: bool) -> usize {
    if quote {
        if left == STRING {
            STRING_END
        } else {
            STRING_START
        }
    } else if left == COMMENT || left == COMMENT_1 {
        COMMENT
    } else if left == STRING_START || left == STRING {
        STRING
    } else {
        DEFAULT
    }
}

/// The category inferred for the cell at column `x` from its character and
/// its left neighbour. `None` where nothing is inferred: on a hole, and
/// behind a hole.
pub open spec fn seed(r: Row, x: int) -> Option<usize> {
    match at(r, x) {
        None => None,
        Some(c) => if x == 0 {
            Some(
                if c.chr == '"' {
                    STRING_START
                } else {
                    DEFAULT
                },
            )
        } else {
            match at(r, x - 1) {
                None => None,
                Some(l) => Some(inherited(l.fg, c.chr == '"')),
            }
        },
    }
}

/// `r` after the category of the cell at column `x` was inferred.
pub open spec fn infer_row(r: Row, x: int) -> Row {
    match seed(r, x) {
        Some(color) => paint(r, x, color),
        None => r,
    }
}

/// Whether `text` is one of the keywords.
pub open spec fn is_keyword(text: Seq<char>) -> bool {
    ||| text == "struct"@
    ||| text == "enum"@
    ||| text == "impl"@
    ||| text == "trait"@
    ||| text == "loop"@
    ||| text == "while"@
    ||| text == "for"@
    ||| text == "in"@
    ||| text == "if"@
    ||| text == "else"@
    ||| text == "unsafe"@
    ||| text == "return"@
    ||| text == "break"@
    ||| text == "continue"@
    ||| text == "pub"@
    ||| text == "mod"@
    ||| text == "fn"@
    ||| text == "use"@
    ||| text == "extern"@
    ||| text == "crate"@
    ||| text == "i8"@
    ||| text == "i16"@
    ||| text == "i32"@
    ||| text == "i64"@
    ||| text == "isize"@
    ||| text == "u8"@
    ||| text == "u16"@
    ||| text == "u32"@
    ||| text == "u64"@
    ||| text == "usize"@
    ||| text == "char"@
    ||| text == "str"@
    ||| text == "self"@
    ||| text == "let"@
    ||| text == "mut"@
    ||| text == "const"@
}

/// The category of a token found at a cell that was seeded with `seeded`,
/// given whether its text is a keyword, and whether it starts with an
/// uppercase letter or with a digit. A token that starts with an uppercase
/// letter is a type, one that starts with a digit is numeric, whatever the
/// seed. Any other token keeps the seed inside a comment or a string;
/// elsewhere it is a keyword or default.
pub open spec fn category(seeded: usize, keyword: bool, upper: bool, digit: bool) -> usize {
    if upper {
        TYPE
    } else if digit {
        NUMERIC
    } else if seeded != COMMENT && seeded != STRING {
        if keyword {
            KEYWORD
        } else {
            DEFAULT
        }
    } else {
        seeded
    }
}

/// The category of a token with the text `text`, found at a cell that was
/// seeded with `seeded`.
pub open spec fn token_color(seeded: usize, text: Seq<char>) -> usize {
    category(
        seeded,
        is_keyword(text),
        text.len() > 0 && uppercase(text[0]),
        text.len() > 0 && numeric(text[0]),
    )
}

/// `r` after the token round column `x` was updated: the category of the cell
/// at `x` is inferred, and the whole alphanumeric token that holds `x` is
/// painted in the category that follows from it. A hole at `x` leaves the line
/// as it is.
pub open spec fn update_row(r: Row, x: int) -> Row {
    let seeded = infer_row(r, x);
    match at(seeded, x) {
        None => r,
        Some(c) => paint_span(
            seeded,
            scan_start(seeded, x, Pattern::Alphanumeric),
            scan_end(seeded, x, Pattern::Alphanumeric),
            token_color(c.fg, scan_text(seeded, x, Pattern::Alphanumeric)),
        ),
    }
}

/// The number of columns of the token round column `x`.
pub open spec fn token_width(r: Row, x: int) -> int {
    if hit(r, x, Pattern::Alphanumeric) {
        run_end(r, x, Pattern::Alphanumeric) - run_start(r, x, Pattern::Alphanumeric)
    } else {
        0
    }
}

/// `r` after the tokens round the columns from `from` up to `to` were updated,
/// one column after the other from left to right.
pub open spec fn update_from(r: Row, from: int, to: int) -> Row
    decreases to - from,
{
    if from < to {
        update_from(update_row(r, from), from + 1, to)
    } else {
        r
    }
}

/// `r` after a comment marker was found to start at column `start`: its two
/// characters are painted as the marker, the rest of the line as comment.
pub open spec fn comment_row(r: Row, start: int) -> Row {
    paint_span(
        paint_span(paint_span(r, start, start + 1, COMMENT_0), start + 1, start + 2, COMMENT_1),
        start + 2,
        r.len() as int,
        COMMENT,
    )
}

/// `r` after the heuristic highlighter has reacted to an insertion at column
/// `x`. Where the new cell stands in a run of two or more slashes, the line
/// becomes a comment from the run's start; otherwise the token round `x` is
/// updated.
pub open spec fn repaint_inserted(r: Row, x: int) -> Row {
    if scan_end(r, x, Pattern::Slash) - scan_start(r, x, Pattern::Slash) > 1 {
        comment_row(r, scan_start(r, x, Pattern::Slash))
    } else {
        update_row(r, x)
    }
}

/// `r` after the heuristic highlighter has reacted to the removal, from
/// column `x`, of a cell of the category `gone`. Where a character of the
/// comment marker went, every token from `x` to the end of the line is
/// updated, after the marker's first character, if its second went, was reset
/// to default. Otherwise the tokens round `x - 1` and `x` are updated.
pub open spec fn repaint_removed(r: Row, x: int, gone: usize) -> Row {
    if gone == COMMENT_0 {
        update_from(r, x, r.len() as int)
    } else if gone == COMMENT_1 {
        update_from(paint(r, x - 1, DEFAULT), x, r.len() as int)
    } else if x != 0 {
        update_row(update_row(r, x - 1), x)
    } else {
        update_row(r, x)
    }
}

/// A scan from a hit covers exactly the unbroken run of hits round it.
pub proof fn lemma_run(r: Row, x: int, p: Pattern)
    requires
        hit(r, x, p),
    ensures
        0 <= run_start(r, x, p) <= x < run_end(r, x, p) <= r.len(),
        forall|k: int| run_start(r, x, p) <= k < run_end(r, x, p) ==> hit(r, k, p),
        run_start(r, x, p) == 0 || !hit(r, run_start(r, x, p) - 1, p),
        !hit(r, run_end(r, x, p), p),
{
    lemma_run_left(r, x, p);
    lemma_run_right(r, x, p);
}

proof fn lemma_run_left(r: Row, x: int, p: Pattern)
    requires
        hit(r, x, p),
    ensures
        0 <= run_start(r, x, p) <= x,
        forall|k: int| run_start(r, x, p) <= k <= x ==> hit(r, k, p),
        run_start(r, x, p) == 0 || !hit(r, run_start(r, x, p) - 1, p),
    decreases x,
{
    if x > 0 && hit(r, x - 1, p) {
        lemma_run_left(r, x - 1, p);
    }
}

proof fn lemma_run_right(r: Row, x: int, p: Pattern)
    requires
        0 <= x,
    ensures
        x <= run_end(r, x, p) <= r.len() || (x > r.len() && run_end(r, x, p) == x),
        forall|k: int| x <= k < run_end(r, x, p) ==> hit(r, k, p),
        !hit(r, run_end(r, x, p), p),
    decreases r.len() - x,
{
    if hit(r, x, p) {
        lemma_run_right(r, x + 1, p);
    }
}

/// Painting stops at the first hole, and reaches `to` where there is none.
pub proof fn lemma_filled_until(r: Row, from: int, to: int)
    ensures
        from <= to ==> from <= filled_until(r, from, to) <= to,
        from > to ==> filled_until(r, from, to) == from,
        forall|k: int| from <= k < filled_until(r, from, to) ==> at(r, k) is Some,
        (forall|k: int| from <= k < to ==> at(r, k) is Some) && from <= to ==> filled_until(
            r,
            from,
            to,
        ) == to,
    decreases to - from,
{
    if from < to && at(r, from) is Some {
        lemma_filled_until(r, from + 1, to);
    }
}

/// A run of hits holds no hole: painting it reaches its end.
pub proof fn lemma_run_filled(r: Row, x: int, p: Pattern)
    requires
        hit(r, x, p),
    ensures
        filled_until(r, run_start(r, x, p), run_end(r, x, p)) == run_end(r, x, p),
{
    lemma_run(r, x, p);
    assert forall|k: int| run_start(r, x, p) <= k < run_end(r, x, p) implies at(r, k) is Some by {
        assert(hit(r, k, p));
    }
    lemma_filled_until(r, run_start(r, x, p), run_end(r, x, p));
}

/// Painting one column paints the cell that stands there, if any.
pub proof fn lemma_paint_one(r: Row, x: int, color: usize)
    ensures
        paint_span(r, x, x + 1, color) == paint(r, x, color),
{
    reveal_with_fuel(filled_until, 2);
    assert(paint_span(r, x, x + 1, color) =~= paint(r, x, color));
}

/// Painting changes no character, background or font, and no shape.
pub proof fn lemma_paint_span_same_text(r: Row, start: int, end: int, color: usize)
    ensures
        same_row_text(r, paint_span(r, start, end, color)),
{
}

/// Painting one cell changes no character, background or font, and no shape.
pub proof fn lemma_paint_same_text(r: Row, x: int, color: usize)
    ensures
        same_row_text(r, paint(r, x, color)),
{
}

/// Inferring a category changes no character, background or font, and no
/// shape.
pub proof fn lemma_infer_row_same_text(r: Row, x: int)
    ensures
        same_row_text(r, infer_row(r, x)),
{
}

/// Updating a token changes no character, background or font, and no shape.
pub proof fn lemma_update_row_same_text(r: Row, x: int)
    ensures
        same_row_text(r, update_row(r, x)),
{
    let seeded = infer_row(r, x);
    lemma_infer_row_same_text(r, x);
    match at(seeded, x) {
        None => {},
        Some(c) => {
            let start = scan_start(seeded, x, Pattern::Alphanumeric);
            let end = scan_end(seeded, x, Pattern::Alphanumeric);
            let color = token_color(c.fg, scan_text(seeded, x, Pattern::Alphanumeric));
            lemma_paint_span_same_text(seeded, start, end, color);
            lemma_same_row_text_trans(r, seeded, update_row(r, x));
        },
    }
}

/// Updating a stretch of tokens changes no character, background or font,
/// and no shape.
pub proof fn lemma_update_from_same_text(r: Row, from: int, to: int)
    ensures
        same_row_text(r, update_from(r, from, to)),
    decreases to - from,
{
    if from < to {
        lemma_update_row_same_text(r, from);
        lemma_update_from_same_text(update_row(r, from), from + 1, to);
        lemma_same_row_text_trans(r, update_row(r, from), update_from(r, from, to));
    }
}

/// Marking a comment changes no character, background or font, and no shape.
pub proof fn lemma_comment_row_same_text(r: Row, start: int)
    ensures
        same_row_text(r, comment_row(r, start)),
{
    let a = paint_span(r, start, start + 1, COMMENT_0);
    let b = paint_span(a, start + 1, start + 2, COMMENT_1);
    let c = paint_span(b, start + 2, r.len() as int, COMMENT);
    lemma_paint_span_same_text(r, start, start + 1, COMMENT_0);
    lemma_paint_span_same_text(a, start + 1, start + 2, COMMENT_1);
    lemma_paint_span_same_text(b, start + 2, r.len() as int, COMMENT);
    lemma_same_row_text_trans(r, a, b);
    lemma_same_row_text_trans(r, b, c);
}

/// The reaction to an insertion changes no character, background or font,
/// and no shape.
pub proof fn lemma_repaint_inserted_same_text(r: Row, x: int)
    ensures
        same_row_text(r, repaint_inserted(r, x)),
{
    lemma_comment_row_same_text(r, scan_start(r, x, Pattern::Slash));
    lemma_update_row_same_text(r, x);
}

/// The reaction to a removal changes no character, background or font, and
/// no shape.
pub proof fn lemma_repaint_removed_same_text(r: Row, x: int, gone: usize)
    ensures
        same_row_text(r, repaint_removed(r, x, gone)),
{
    if gone == COMMENT_0 {
        lemma_update_from_same_text(r, x, r.len() as int);
    } else if gone == COMMENT_1 {
        let p = paint(r, x - 1, DEFAULT);
        lemma_paint_same_text(r, x - 1, DEFAULT);
        lemma_update_from_same_text(p, x, r.len() as int);
        lemma_same_row_text_trans(r, p, repaint_removed(r, x, gone));
    } else if x != 0 {
        lemma_update_row_same_text(r, x - 1);
        lemma_update_row_same_text(update_row(r, x - 1), x);
        lemma_same_row_text_trans(r, update_row(r, x - 1), repaint_removed(r, x, gone));
    } else {
        lemma_update_row_same_text(r, x);
    }
}

/// Lines with the same text are scanned alike: a scan looks at characters
/// only, never at colours.
pub proof fn lemma_scan_same_text(a: Row, b: Row, x: int, p: Pattern)
    requires
        same_row_text(a, b),
    ensures
        hit(a, x, p) == hit(b, x, p),
        scan_start(a, x, p) == scan_start(b, x, p),
        scan_end(a, x, p) == scan_end(b, x, p),
        scan_text(a, x, p) == scan_text(b, x, p),
{
    lemma_hit_same_text(a, b, p);
    lemma_run_start_same(a, b, x, p);
    lemma_run_end_same(a, b, x, p);
    let s = scan_start(a, x, p);
    let e = scan_end(a, x, p);
    if s < e {
        assert(hit(a, x, p));
        lemma_run(a, x, p);
        assert forall|k: int| s <= k < e implies (#[trigger] a[k])->0.chr == b[k]->0.chr by {
            assert(hit(a, k, p));
            assert(same_glyph(a[k], b[k]));
        }
        assert(span_text(a, s, e) =~= span_text(b, s, e));
    }
}

proof fn lemma_hit_same_text(a: Row, b: Row, p: Pattern)
    requires
        same_row_text(a, b),
    ensures
        forall|k: int| hit(a, k, p) == hit(b, k, p),
{
    assert forall|k: int| hit(a, k, p) == hit(b, k, p) by {
        if 0 <= k < a.len() {
            assert(same_glyph(a[k], b[k]));
        }
    }
}

proof fn lemma_run_start_same(a: Row, b: Row, x: int, p: Pattern)
    requires
        forall|k: int| hit(a, k, p) == hit(b, k, p),
    ensures
        run_start(a, x, p) == run_start(b, x, p),
    decreases x,
{
    if x > 0 && hit(a, x - 1, p) {
        lemma_run_start_same(a, b, x - 1, p);
    }
}

proof fn lemma_run_end_same(a: Row, b: Row, x: int, p: Pattern)
    requires
        forall|k: int| hit(a, k, p) == hit(b, k, p),
        a.len() == b.len(),
    ensures
        run_end(a, x, p) == run_end(b, x, p),
    decreases a.len() - x,
{
    if hit(a, x, p) {
        lemma_run_end_same(a, b, x + 1, p);
    }
}

} // verus!
