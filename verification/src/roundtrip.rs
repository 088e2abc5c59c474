//! Loading a text and writing it out again.

use vstd::prelude::*;
use crate::buffer::{fresh, insertion, Char};
use crate::editor::{
    broke_line, indented, leading_tabs, tabbed, typed, typed_char, Editor, TAB_SIZE,
};
use crate::grid::{
    insert_char, lemma_insert_char_same_text, lemma_same_text_cell, lemma_same_text_refl,
    lemma_same_text_trans, line_of, same_glyph, same_row_text, same_text, Grid, Row,
};
use crate::laws::lemma_insert_shifts;
use crate::sparse::{inserted, padded};
use crate::syntax::Highlighter;
use crate::text::{
    lemma_collapsed_plain, lemma_collapsed_tabs, lemma_row_chars_filled,
    lemma_serialized_same_text, plain_row, printed, row_chars, serialized, tabs,
};

verus! {

/// What holds of a session while text without tabs is loaded into an empty
/// buffer: the buffer reads as the text loaded so far, and the cursor stands
/// at the end of the last line, which has no holes.
spec fn loaded(e: Editor, done: Seq<char>) -> bool {
    &&& serialized(e.grid) == done
    &&& if done.len() == 0 {
        e.grid.len() == 0 && e.x == 0 && e.y == 0
    } else {
        &&& e.grid.len() >= 1
        &&& e.y == e.grid.len() - 1
        &&& e.grid[e.y] is Some
        &&& plain_row(e.grid[e.y]->0)
        &&& e.x == e.grid[e.y]->0.len()
        &&& done.last() == '\n' ==> e.grid.len() >= 2 && e.x == 0
    }
}

proof fn lemma_printed_plain(r: Row)
    requires
        plain_row(r),
    ensures
        printed(Some(r)) == row_chars(r),
        row_chars(r).len() == r.len(),
{
    lemma_row_chars_filled(r);
    lemma_collapsed_plain(row_chars(r));
}

proof fn lemma_loaded_char(e: Editor, done: Seq<char>, chr: char)
    requires
        loaded(e, done),
        chr != '\t',
        chr != '\n',
    ensures
        loaded(typed_char(e, chr), done.push(chr)),
{
    let cell = fresh(chr);
    let after = typed_char(e, chr);
    let plain = insert_char(e.grid, e.x, e.y, cell);
    lemma_insert_shifts(e.engine, e.grid, e.x, e.y, cell, 0, 0);
    lemma_serialized_same_text(after.grid, plain);
    lemma_same_text_cell(after.grid, plain, 0, e.y);
    let old_line = line_of(e.grid, e.y);
    let new_line = old_line.push(Some(cell));
    assert(plain[e.y] == Some(new_line)) by {
        assert(inserted(old_line, e.x, cell) =~= new_line);
    }
    assert(plain_row(new_line)) by {
        assert forall|i: int| 0 <= i < new_line.len() implies (#[trigger] new_line[i]) is Some
            && new_line[i]->0.chr != '\t' by {
            if i < old_line.len() {
                assert(new_line[i] == old_line[i]);
            }
        }
    }
    let got = after.grid[e.y]->0;
    assert(plain_row(got)) by {
        assert forall|i: int| 0 <= i < got.len() implies (#[trigger] got[i]) is Some
            && got[i]->0.chr != '\t' by {
            assert(same_glyph(got[i], new_line[i]));
        }
    }
    lemma_printed_plain(new_line);
    assert(new_line.drop_last() =~= old_line);
    assert(row_chars(new_line) == row_chars(old_line).push(chr));
    if done.len() == 0 {
        assert(plain =~= seq![Some(new_line)]);
        assert(row_chars(old_line) =~= Seq::<char>::empty());
        assert(serialized(plain) =~= done.push(chr));
    } else {
        lemma_printed_plain(old_line);
        assert(plain =~= e.grid.update(e.y, Some(new_line)));
        if e.grid.len() == 1 {
            assert(serialized(plain) =~= done.push(chr));
        } else {
            assert(plain.drop_last() =~= e.grid.drop_last());
            assert(serialized(plain) =~= done.push(chr));
        }
    }
}

proof fn lemma_loaded_line_feed(e: Editor, done: Seq<char>)
    requires
        loaded(e, done),
    ensures
        loaded(broke_line(e), done.push('\n')),
{
    let after = broke_line(e);
    let blank = Seq::<Option<Char>>::empty();
    assert(row_chars(blank) =~= Seq::<char>::empty());
    assert(plain_row(blank));
    lemma_printed_plain(blank);
    if done.len() == 0 {
        let rows = padded(e.grid, 1);
        assert(rows =~= seq![None]);
        assert(after.grid =~= seq![None, Some(blank)]);
        assert(after.grid.drop_last() =~= seq![None::<Row>]);
        assert(serialized(seq![None::<Row>]) =~= Seq::<char>::empty());
        assert(after.grid.last() == Some(blank));
        assert(serialized(after.grid) =~= done.push('\n'));
    } else {
        let line = e.grid[e.y]->0;
        assert(padded(e.grid, e.y + 1) == e.grid);
        assert(leading_tabs(line) == 0) by {
            if line.len() > 0 {
                assert(line[0] is Some && line[0]->0.chr != '\t');
            }
        }
        assert(line.subrange(0, e.x) =~= line);
        assert(line.subrange(0, 0) + line.subrange(e.x, line.len() as int) =~= blank);
        assert(e.grid.update(e.y, Some(line)) =~= e.grid);
        assert(after.grid =~= e.grid.push(Some(blank)));
        assert(after.grid.drop_last() =~= e.grid);
        assert(serialized(after.grid) =~= done.push('\n'));
    }
}

/// Loading and writing out again gives the text back: a text without tabs,
/// typed into an empty buffer from its start, is what the buffer is written
/// out as, whatever highlighter is attached.
pub proof fn lemma_round_trip(e: Editor, text: Seq<char>)
    requires
        e.grid.len() == 0,
        e.x == 0,
        e.y == 0,
        forall|i: int| 0 <= i < text.len() ==> text[i] != '\t',
    ensures
        serialized(typed(e, text).grid) == text,
{
    lemma_typed_loaded(e, text);
}

proof fn lemma_typed_loaded(e: Editor, text: Seq<char>)
    requires
        e.grid.len() == 0,
        e.x == 0,
        e.y == 0,
        forall|i: int| 0 <= i < text.len() ==> text[i] != '\t',
    ensures
        loaded(typed(e, text), text),
    decreases text.len(),
{
    if text.len() == 0 {
        assert(serialized(e.grid) =~= text);
    } else {
        let front = text.drop_last();
        lemma_typed_loaded(e, front);
        assert(front.push(text.last()) =~= text);
        if text.last() == '\n' {
            lemma_loaded_line_feed(typed(e, front), front);
        } else {
            lemma_loaded_char(typed(e, front), front, text.last());
        }
    }
}

/// Whether a text made of `head`, some tabs and `tail` has tabs only at the
/// start of its last line: `head` is empty or ends its last line, and neither
/// part holds a tab of its own.
pub open spec fn tabs_lead_last_line(head: Seq<char>, tail: Seq<char>) -> bool {
    &&& forall|i: int| 0 <= i < head.len() ==> head[i] != '\t'
    &&& head.len() == 0 || head.last() == '\n'
    &&& forall|i: int| 0 <= i < tail.len() ==> tail[i] != '\t' && tail[i] != '\n'
}

/// Whether `r` holds the cells of `count` tabs and then those of `s`, without
/// holes.
spec fn indented_line(r: Row, count: int, s: Seq<char>) -> bool {
    &&& r.len() == TAB_SIZE * count + s.len()
    &&& forall|i: int|
        0 <= i < r.len() ==> (#[trigger] r[i]) is Some && r[i]->0.chr == if i < TAB_SIZE * count {
            '\t'
        } else {
            s[i - TAB_SIZE * count]
        }
}

/// What holds of a session while the last line is loaded: the lines above
/// read as `head`, the last line holds `count` tabs and `s`, and the cursor
/// stands at its end.
spec fn at_tail(e: Editor, head: Seq<char>, count: int, s: Seq<char>) -> bool {
    if head.len() == 0 && count == 0 && s.len() == 0 {
        e.grid.len() == 0 && e.x == 0 && e.y == 0
    } else {
        &&& e.grid.len() >= 1
        &&& e.y == e.grid.len() - 1
        &&& head.len() == 0 ==> e.y == 0
        &&& head.len() > 0 ==> e.y > 0 && serialized(e.grid.drop_last()).push('\n') == head
        &&& e.grid[e.y] is Some
        &&& indented_line(e.grid[e.y]->0, count, s)
        &&& e.x == e.grid[e.y]->0.len()
    }
}

proof fn lemma_indented_line_printed(r: Row, count: int, s: Seq<char>)
    requires
        0 <= count,
        indented_line(r, count, s),
        forall|i: int| 0 <= i < s.len() ==> s[i] != '\t',
    ensures
        printed(Some(r)) == tabs(count) + s,
{
    lemma_row_chars_filled(r);
    assert(row_chars(r) =~= tabs(TAB_SIZE * count) + s);
    lemma_collapsed_tabs(count as nat, s);
}

proof fn lemma_at_tail_serialized(e: Editor, head: Seq<char>, count: int, s: Seq<char>)
    requires
        0 <= count,
        at_tail(e, head, count, s),
        forall|i: int| 0 <= i < s.len() ==> s[i] != '\t',
    ensures
        serialized(e.grid) == head + tabs(count) + s,
{
    if head.len() == 0 && count == 0 && s.len() == 0 {
        assert(head + tabs(count) + s =~= Seq::<char>::empty());
    } else {
        lemma_indented_line_printed(e.grid[e.y]->0, count, s);
        assert(e.grid.last() == e.grid[e.y]);
        if head.len() == 0 {
            assert(head + tabs(count) + s =~= tabs(count) + s);
        } else {
            assert(serialized(e.grid) =~= head + tabs(count) + s);
        }
    }
}

proof fn lemma_drop_last_same_text(a: Grid, b: Grid)
    requires
        same_text(a, b),
        a.len() > 0,
    ensures
        same_text(a.drop_last(), b.drop_last()),
{
    let fa = a.drop_last();
    let fb = b.drop_last();
    assert forall|y: int| 0 <= y < fa.len() implies match (#[trigger] fa[y], fb[y]) {
        (Some(p), Some(q)) => same_row_text(p, q),
        (None, None) => true,
        _ => false,
    } by {
        assert(fa[y] == a[y]);
        assert(fb[y] == b[y]);
    }
}

proof fn lemma_at_tail_same_text(e: Editor, f: Editor, head: Seq<char>, count: int, s: Seq<char>)
    requires
        at_tail(f, head, count, s),
        same_text(e.grid, f.grid),
        e.x == f.x,
        e.y == f.y,
    ensures
        at_tail(e, head, count, s),
{
    if !(head.len() == 0 && count == 0 && s.len() == 0) {
        lemma_same_text_cell(e.grid, f.grid, 0, e.y);
        lemma_drop_last_same_text(e.grid, f.grid);
        lemma_serialized_same_text(e.grid.drop_last(), f.grid.drop_last());
        let r = e.grid[e.y]->0;
        let q = f.grid[e.y]->0;
        assert forall|i: int| 0 <= i < r.len() implies (#[trigger] r[i]) is Some && r[i]->0.chr
            == if i < TAB_SIZE * count {
            '\t'
        } else {
            s[i - TAB_SIZE * count]
        } by {
            assert(same_glyph(r[i], q[i]));
        }
    }
}

/// The cells that `count` tab characters expand to.
spec fn tab_cells(count: nat) -> Row {
    Seq::new(count, |i: int| Some(fresh('\t')))
}

proof fn lemma_indented_same_text(engine: Option<Highlighter>, g: Grid, y: int, count: nat)
    requires
        0 <= y,
    ensures
        same_text(indented(engine, g, y, count), indented(None, g, y, count)),
    decreases count,
{
    if count == 0 {
        lemma_same_text_refl(g);
    } else {
        let a = indented(engine, g, y, (count - 1) as nat);
        let b = indented(None, g, y, (count - 1) as nat);
        lemma_indented_same_text(engine, g, y, (count - 1) as nat);
        lemma_insert_shifts(engine, a, 0, y, fresh('\t'), 0, 0);
        lemma_insert_char_same_text(a, b, 0, y, fresh('\t'));
        lemma_same_text_trans(
            insertion(engine, a, 0, y, fresh('\t')),
            insert_char(a, 0, y, fresh('\t')),
            insert_char(b, 0, y, fresh('\t')),
        );
    }
}

proof fn lemma_indented_last_line(g: Grid, count: nat)
    requires
        g.len() >= 1,
        g.last() is Some,
    ensures
        indented(None, g, g.len() - 1, count) == g.update(
            g.len() - 1,
            Some(tab_cells(count) + g.last()->0),
        ),
    decreases count,
{
    let y = g.len() - 1;
    let r = g.last()->0;
    if count == 0 {
        assert(tab_cells(0) + r =~= r);
        assert(g.update(y, Some(r)) =~= g);
    } else {
        lemma_indented_last_line(g, (count - 1) as nat);
        let before = tab_cells((count - 1) as nat) + r;
        let h = g.update(y, Some(before));
        assert(padded(h, y + 1) == h);
        assert(inserted(before, 0, fresh('\t')) =~= tab_cells(count) + r);
        assert(insert_char(h, 0, y, fresh('\t')) =~= g.update(y, Some(tab_cells(count) + r)));
    }
}

proof fn lemma_indented_empty(count: nat)
    requires
        count >= 1,
    ensures
        indented(None, Seq::<Option<Row>>::empty(), 0, count) == seq![Some(tab_cells(count))],
    decreases count,
{
    let g = Seq::<Option<Row>>::empty();
    if count == 1 {
        assert(indented(None, g, 0, 0) == g);
        assert(padded(g, 1) =~= seq![None::<Row>]);
        assert(inserted(Seq::<Option<Char>>::empty(), 0, fresh('\t')) =~= tab_cells(1));
        assert(insert_char(g, 0, 0, fresh('\t')) =~= seq![Some(tab_cells(1))]);
    } else {
        lemma_indented_empty((count - 1) as nat);
        let h = seq![Some(tab_cells((count - 1) as nat))];
        assert(padded(h, 1) == h);
        assert(inserted(tab_cells((count - 1) as nat), 0, fresh('\t')) =~= tab_cells(count));
        assert(insert_char(h, 0, 0, fresh('\t')) =~= seq![Some(tab_cells(count))]);
    }
}

proof fn lemma_tail_tab(e: Editor, head: Seq<char>, count: int)
    requires
        0 <= count,
        at_tail(e, head, count, Seq::<char>::empty()),
    ensures
        at_tail(tabbed(e), head, count + 1, Seq::<char>::empty()),
{
    let none = Seq::<char>::empty();
    let after = tabbed(e);
    let plain = indented(None, e.grid, e.y, TAB_SIZE as nat);
    lemma_indented_same_text(e.engine, e.grid, e.y, TAB_SIZE as nat);
    let f = Editor { grid: plain, ..after };
    if head.len() == 0 && count == 0 {
        assert(e.grid =~= Seq::<Option<Row>>::empty());
        lemma_indented_empty(TAB_SIZE as nat);
        assert(plain[0] == Some(tab_cells(TAB_SIZE as nat)));
        assert(indented_line(tab_cells(TAB_SIZE as nat), 1, none));
    } else {
        let r = e.grid[e.y]->0;
        assert(e.grid.last() == e.grid[e.y]);
        lemma_indented_last_line(e.grid, TAB_SIZE as nat);
        assert(plain.drop_last() =~= e.grid.drop_last());
        let q = tab_cells(TAB_SIZE as nat) + r;
        assert forall|i: int| 0 <= i < q.len() implies (#[trigger] q[i]) is Some && q[i]->0.chr
            == if i < TAB_SIZE * (count + 1) {
            '\t'
        } else {
            none[i - TAB_SIZE * (count + 1)]
        } by {
            if i >= TAB_SIZE {
                assert(q[i] == r[i - TAB_SIZE]);
            }
        }
        assert(plain[e.y] == Some(q));
        assert(indented_line(q, count + 1, none));
    }
    assert(at_tail(f, head, count + 1, none));
    lemma_at_tail_same_text(after, f, head, count + 1, none);
}

proof fn lemma_tail_char(e: Editor, head: Seq<char>, count: int, s: Seq<char>, chr: char)
    requires
        0 <= count,
        at_tail(e, head, count, s),
        chr != '\t',
        chr != '\n',
    ensures
        at_tail(typed_char(e, chr), head, count, s.push(chr)),
{
    let cell = fresh(chr);
    let after = typed_char(e, chr);
    let plain = insert_char(e.grid, e.x, e.y, cell);
    lemma_insert_shifts(e.engine, e.grid, e.x, e.y, cell, 0, 0);
    let f = Editor { grid: plain, ..after };
    let old_line = line_of(e.grid, e.y);
    let new_line = old_line.push(Some(cell));
    assert(inserted(old_line, e.x, cell) =~= new_line);
    if head.len() == 0 && count == 0 && s.len() == 0 {
        assert(padded(e.grid, 1) =~= seq![None::<Row>]);
        assert(plain =~= seq![Some(new_line)]);
    } else {
        assert(padded(e.grid, e.y + 1) == e.grid);
        assert(plain =~= e.grid.update(e.y, Some(new_line)));
        assert(plain.drop_last() =~= e.grid.drop_last());
    }
    let grown = s.push(chr);
    assert forall|i: int| 0 <= i < new_line.len() implies (#[trigger] new_line[i]) is Some
        && new_line[i]->0.chr == if i < TAB_SIZE * count {
        '\t'
    } else {
        grown[i - TAB_SIZE * count]
    } by {
        if i < old_line.len() {
            assert(new_line[i] == old_line[i]);
        }
    }
    assert(at_tail(f, head, count, grown));
    lemma_at_tail_same_text(after, f, head, count, grown);
}

proof fn lemma_typed_concat(e: Editor, a: Seq<char>, b: Seq<char>)
    ensures
        typed(e, a + b) == typed(typed(e, a), b),
    decreases b.len(),
{
    if b.len() == 0 {
        assert(a + b =~= a);
    } else {
        lemma_typed_concat(e, a, b.drop_last());
        assert((a + b).drop_last() =~= a + b.drop_last());
        assert((a + b).last() == b.last());
    }
}

proof fn lemma_typed_tabs(e: Editor, head: Seq<char>, count: nat)
    requires
        at_tail(e, head, 0, Seq::<char>::empty()),
    ensures
        at_tail(typed(e, tabs(count as int)), head, count as int, Seq::<char>::empty()),
    decreases count,
{
    if count > 0 {
        lemma_typed_tabs(e, head, (count - 1) as nat);
        assert(tabs(count as int).drop_last() =~= tabs(count - 1));
        lemma_tail_tab(typed(e, tabs(count - 1)), head, count - 1);
    }
}

proof fn lemma_typed_tail(e: Editor, head: Seq<char>, count: int, s: Seq<char>)
    requires
        0 <= count,
        at_tail(e, head, count, Seq::<char>::empty()),
        forall|i: int| 0 <= i < s.len() ==> s[i] != '\t' && s[i] != '\n',
    ensures
        at_tail(typed(e, s), head, count, s),
    decreases s.len(),
{
    if s.len() > 0 {
        let front = s.drop_last();
        lemma_typed_tail(e, head, count, front);
        lemma_tail_char(typed(e, front), head, count, front, s.last());
        assert(front.push(s.last()) =~= s);
    } else {
        assert(s =~= Seq::<char>::empty());
    }
}

/// Loading and writing out again gives the text back where tabs stand only
/// at the start of the last line: for `head` without tabs that is empty or
/// ends its last line, any number of tabs, and `tail` without tabs and line
/// feeds, the text made of the three, typed into an empty buffer from its
/// start, is what the buffer is written out as, whatever highlighter is
/// attached.
pub proof fn lemma_round_trip_indented(e: Editor, head: Seq<char>, count: nat, tail: Seq<char>)
    requires
        e.grid.len() == 0,
        e.x == 0,
        e.y == 0,
        tabs_lead_last_line(head, tail),
    ensures
        serialized(typed(e, head + tabs(count as int) + tail).grid) == head + tabs(count as int)
            + tail,
{
    let none = Seq::<char>::empty();
    let lead = tabs(count as int);
    let e1 = typed(e, head);
    lemma_typed_loaded(e, head);
    assert(at_tail(e1, head, 0, none)) by {
        if head.len() > 0 {
            let blank = e1.grid[e1.y]->0;
            assert(e1.grid.last() == e1.grid[e1.y]);
            assert(row_chars(blank) =~= none);
            assert(printed(Some(blank)) =~= none);
            assert(serialized(e1.grid.drop_last()).push('\n') =~= head);
        }
    }
    let e2 = typed(e1, lead);
    lemma_typed_tabs(e1, head, count);
    let e3 = typed(e2, tail);
    lemma_typed_tail(e2, head, count as int, tail);
    lemma_at_tail_serialized(e3, head, count as int, tail);
    lemma_typed_concat(e, head, lead);
    lemma_typed_concat(e, head + lead, tail);
}

} // verus!
