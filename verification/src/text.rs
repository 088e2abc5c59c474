//! Text that leaves the grid: the lines as they are written out, numbers for
//! the gutter, and padding.

use vstd::prelude::*;
use vstd::string::StringExecFns;
use crate::buffer::{line_view, Buffer, Char};
use crate::editor::TAB_SIZE;
use crate::grid::{same_glyph, same_row_text, same_text, Grid, Row};
use crate::sparse::SparseVec;

verus! {

/// The characters of the cells of a line in order; a hole gives none.
pub open spec fn row_chars(r: Row) -> Seq<char>
    decreases r.len(),
{
    if r.len() == 0 {
        Seq::empty()
    } else {
        match r.last() {
            Some(c) => row_chars(r.drop_last()).push(c.chr),
            None => row_chars(r.drop_last()),
        }
    }
}

/// Whether `s` starts with as many tab characters as one tab expands to.
pub open spec fn starts_with_tabs(s: Seq<char>) -> bool {
    &&& s.len() >= TAB_SIZE
    &&& forall|k: int| 0 <= k < TAB_SIZE ==> s[k] == '\t'
}

/// `s` with every run of as many tab characters as one tab expands to
/// collapsed into a single tab, the runs taken from left to right.
pub open spec fn collapsed(s: Seq<char>) -> Seq<char>
    decreases s.len(),
{
    if s.len() == 0 {
        s
    } else if starts_with_tabs(s) {
        seq!['\t'] + collapsed(s.subrange(TAB_SIZE as int, s.len() as int))
    } else {
        seq![s[0]] + collapsed(s.drop_first())
    }
}

/// What is written out for a line: nothing for an absent one.
pub open spec fn printed(line: Option<Row>) -> Seq<char> {
    match line {
        Some(r) => collapsed(row_chars(r)),
        None => Seq::empty(),
    }
}

/// What is written out for a grid: its lines, with a line feed between every
/// two of them.
pub open spec fn serialized(g: Grid) -> Seq<char>
    decreases g.len(),
{
    if g.len() == 0 {
        Seq::empty()
    } else if g.len() == 1 {
        printed(g[0])
    } else {
        serialized(g.drop_last()).push('\n') + printed(g.last())
    }
}

/// `count` tab characters.
pub open spec fn tabs(count: int) -> Seq<char> {
    Seq::new(
        if count > 0 {
            count as nat
        } else {
            0
        },
        |i: int| '\t',
    )
}

/// Whether every column of `r` holds a cell, and none of them a tab.
pub open spec fn plain_row(r: Row) -> bool {
    forall|i: int| 0 <= i < r.len() ==> (#[trigger] r[i]) is Some && r[i]->0.chr != '\t'
}

/// A line without holes gives one character for each column.
pub proof fn lemma_row_chars_filled(r: Row)
    requires
        forall|i: int| 0 <= i < r.len() ==> (#[trigger] r[i]) is Some,
    ensures
        row_chars(r).len() == r.len(),
        forall|i: int| 0 <= i < r.len() ==> #[trigger] row_chars(r)[i] == r[i]->0.chr,
    decreases r.len(),
{
    if r.len() > 0 {
        let front = r.drop_last();
        assert forall|i: int| 0 <= i < front.len() implies (#[trigger] front[i]) is Some by {
            assert(front[i] == r[i]);
        }
        lemma_row_chars_filled(front);
        assert(r.last() == r[r.len() - 1]);
        assert forall|i: int| 0 <= i < r.len() implies #[trigger] row_chars(r)[i]
            == r[i]->0.chr by {
            if i < front.len() {
                assert(front[i] == r[i]);
            }
        }
    }
}

/// As many tab characters as `count` tabs expand to, followed by text
/// without tabs, are written out as `count` tabs and the text.
pub proof fn lemma_collapsed_tabs(count: nat, s: Seq<char>)
    requires
        forall|i: int| 0 <= i < s.len() ==> s[i] != '\t',
    ensures
        collapsed(tabs(TAB_SIZE * count) + s) == tabs(count as int) + s,
    decreases count,
{
    if count == 0 {
        lemma_collapsed_plain(s);
        assert(tabs(0) + s =~= s);
    } else {
        let whole = tabs(TAB_SIZE * count) + s;
        assert(starts_with_tabs(whole));
        assert(whole.subrange(TAB_SIZE as int, whole.len() as int) =~= tabs(
            TAB_SIZE * (count - 1),
        ) + s);
        lemma_collapsed_tabs((count - 1) as nat, s);
        assert(seq!['\t'] + (tabs(count - 1) + s) =~= tabs(count as int) + s);
    }
}

/// Text without tabs is written out as it is.
pub proof fn lemma_collapsed_plain(s: Seq<char>)
    requires
        forall|i: int| 0 <= i < s.len() ==> s[i] != '\t',
    ensures
        collapsed(s) == s,
    decreases s.len(),
{
    if s.len() > 0 {
        assert(!starts_with_tabs(s)) by {
            if starts_with_tabs(s) {
                assert(s[0] == '\t');
            }
        }
        lemma_collapsed_plain(s.drop_first());
        assert(seq![s[0]] + s.drop_first() =~= s);
    }
}

/// Lines with the same text give the same characters.
pub proof fn lemma_row_chars_same_text(a: Row, b: Row)
    requires
        same_row_text(a, b),
    ensures
        row_chars(a) == row_chars(b),
    decreases a.len(),
{
    if a.len() > 0 {
        let fa = a.drop_last();
        let fb = b.drop_last();
        assert forall|x: int| 0 <= x < fa.len() implies same_glyph(#[trigger] fa[x], fb[x]) by {
            assert(same_glyph(a[x], b[x]));
        }
        lemma_row_chars_same_text(fa, fb);
        assert(same_glyph(a[a.len() - 1], b[a.len() - 1]));
    }
}

/// Grids with the same text are written out alike: colours do not show.
pub proof fn lemma_serialized_same_text(a: Grid, b: Grid)
    requires
        same_text(a, b),
    ensures
        serialized(a) == serialized(b),
    decreases a.len(),
{
    if a.len() > 0 {
        let last = a.len() - 1;
        match (a[last], b[last]) {
            (Some(p), Some(q)) => {
                lemma_row_chars_same_text(p, q);
            },
            _ => {},
        }
        if a.len() > 1 {
            let fa = a.drop_last();
            let fb = b.drop_last();
            assert forall|y: int| 0 <= y < fa.len() implies match (#[trigger] fa[y], fb[y]) {
                (Some(p), Some(q)) => same_row_text(p, q),
                (None, None) => true,
                _ => false,
            } by {
                assert(fa[y] == a[y]);
                assert(fb[y] == b[y]);
            }
            lemma_serialized_same_text(fa, fb);
        }
    }
}

/// The character for the decimal digit `d`.
pub open spec fn digit(d: int) -> char {
    (48 + d) as u8 as char
}

/// `n` written in decimal digits, without leading zeros.
pub open spec fn decimal(n: nat) -> Seq<char>
    decreases n,
{
    if n < 10 {
        seq![digit(n as int)]
    } else {
        decimal(n / 10).push(digit((n % 10) as int))
    }
}

/// `count` blanks.
pub open spec fn blanks(count: int) -> Seq<char> {
    Seq::new(
        if count > 0 {
            count as nat
        } else {
            0
        },
        |i: int| ' ',
    )
}

/// `text` with blanks in front, as many as its encoding in bytes is shorter
/// than `n`.
pub open spec fn padded_text(text: Seq<char>, n: int) -> Seq<char> {
    blanks(n - vstd::utf8::encode_utf8(text).len()) + text
}

/// A decimal number has at most twenty digits where it fits the machine.
pub proof fn lemma_decimal_len(n: nat)
    ensures
        1 <= decimal(n).len(),
        n <= u64::MAX ==> decimal(n).len() <= 20,
{
    reveal_with_fuel(decimal, 21);
}

/// `n` written in decimal digits.
pub fn number(n: usize) -> (out: String)
    ensures
        out@ == decimal(n as nat),
{
    let mut low: Vec<char> = Vec::new();
    let mut rest = n;
    proof {
        assert(decimal(rest as nat) + low@.reverse() =~= decimal(n as nat));
    }
    while rest >= 10
        invariant
            decimal(rest as nat) + low@.reverse() == decimal(n as nat),
        decreases rest,
    {
        let d = (rest % 10) as u8;
        let ghost before = low@;
        low.push((48u8 + d) as char);
        proof {
            assert(low@.reverse() =~= seq![digit((rest % 10) as int)] + before.reverse());
            assert(decimal((rest / 10) as nat) + low@.reverse() =~= decimal(rest as nat)
                + before.reverse());
        }
        rest = rest / 10;
    }
    let ghost before = low@;
    low.push((48u8 + rest as u8) as char);
    proof {
        assert(low@.reverse() =~= decimal(rest as nat) + before.reverse());
    }
    let mut out = String::new();
    let mut k = low.len();
    while k > 0
        invariant
            k <= low@.len(),
            out@ == low@.reverse().subrange(0, low@.len() - k),
        decreases k,
    {
        k -= 1;
        let ghost had = out@;
        out.push(low[k]);
        proof {
            assert(had.push(low@[k as int]) =~= low@.reverse().subrange(0, low@.len() - k));
        }
    }
    proof {
        assert(low@.reverse().subrange(0, low@.len() as int) =~= low@.reverse());
    }
    out
}

/// `string` with blanks in front, as many as its length in bytes is short of
/// `n`.
pub fn pad(string: String, n: usize) -> (out: String)
    ensures
        out@ == padded_text(string@, n as int),
{
    let len = string.as_str().as_bytes().len();
    let mut out = String::new();
    if len < n {
        let mut i = len;
        while i < n
            invariant
                len <= i <= n,
                out@ == blanks(i - len),
            decreases n - i,
        {
            let ghost had = out@;
            out.push(' ');
            proof {
                assert(had.push(' ') =~= blanks(i + 1 - len));
            }
            i += 1;
        }
    } else {
        proof {
            assert(out@ =~= blanks(n - len));
        }
    }
    out.append(string.as_str());
    out
}

/// The characters of the cells of `line` in order.
pub fn line_chars(line: &SparseVec<Char>) -> (chars: Vec<char>)
    ensures
        chars@ == row_chars(line@),
{
    let mut chars: Vec<char> = Vec::new();
    let n = line.len();
    let mut x: usize = 0;
    while x < n
        invariant
            n == line@.len(),
            x <= n,
            chars@ == row_chars(line@.subrange(0, x as int)),
        decreases n - x,
    {
        proof {
            assert(line@.subrange(0, x + 1).drop_last() =~= line@.subrange(0, x as int));
        }
        match line.get(x) {
            Some(chr) => {
                chars.push(chr.chr);
            },
            None => {},
        }
        x += 1;
    }
    proof {
        assert(line@.subrange(0, n as int) =~= line@);
    }
    chars
}

/// `text` with every run of `TAB_SIZE` tab characters collapsed into one tab.
pub fn collapse_tabs(text: &Vec<char>) -> (out: String)
    ensures
        out@ == collapsed(text@),
{
    let mut out = String::new();
    let n = text.len();
    let mut i: usize = 0;
    proof {
        assert(text@.subrange(0, n as int) =~= text@);
        assert(out@ + collapsed(text@) =~= collapsed(text@));
    }
    while i < n
        invariant
            n == text@.len(),
            i <= n,
            out@ + collapsed(text@.subrange(i as int, n as int)) == collapsed(text@),
        decreases n - i,
    {
        let ghost rest = text@.subrange(i as int, n as int);
        let mut k: usize = 0;
        while k < TAB_SIZE && i + k < n && text[i + k] == '\t'
            invariant
                n == text@.len(),
                i < n,
                k <= TAB_SIZE,
                i + k <= n,
                rest == text@.subrange(i as int, n as int),
                forall|j: int| 0 <= j < k ==> rest[j] == '\t',
            decreases TAB_SIZE - k,
        {
            k += 1;
        }
        if k == TAB_SIZE {
            proof {
                assert(starts_with_tabs(rest));
                assert(rest.subrange(TAB_SIZE as int, rest.len() as int) =~= text@.subrange(
                    i + TAB_SIZE,
                    n as int,
                ));
                assert(out@.push('\t') + collapsed(text@.subrange(i + TAB_SIZE, n as int)) =~= out@
                    + collapsed(rest));
            }
            out.push('\t');
            i += TAB_SIZE;
        } else {
            proof {
                assert(!starts_with_tabs(rest)) by {
                    if rest.len() >= TAB_SIZE {
                        assert(rest[k as int] != '\t');
                    }
                }
                assert(rest.drop_first() =~= text@.subrange(i + 1, n as int));
                assert(out@.push(rest[0]) + collapsed(text@.subrange(i + 1, n as int)) =~= out@
                    + collapsed(rest));
            }
            out.push(text[i]);
            i += 1;
        }
    }
    proof {
        assert(text@.subrange(n as int, n as int) =~= Seq::<char>::empty());
        assert(out@ + Seq::<char>::empty() =~= out@);
    }
    out
}

/// What is written out for `line`.
pub fn line_text(line: &Option<SparseVec<Char>>) -> (out: String)
    ensures
        out@ == printed(line_view(*line)),
{
    match line {
        Some(l) => {
            let chars = line_chars(l);
            collapse_tabs(&chars)
        },
        None => String::new(),
    }
}

/// The lines of `buffer` as they are written out, one string for each line.
pub fn lines(buffer: &Buffer) -> (out: Vec<String>)
    ensures
        out@.len() == buffer@.len(),
        forall|y: int| 0 <= y < out@.len() ==> (#[trigger] out@[y])@ == printed(buffer@[y]),
{
    let mut out: Vec<String> = Vec::new();
    let n = buffer.height();
    let mut y: usize = 0;
    while y < n
        invariant
            n == buffer@.len(),
            y <= n,
            out@.len() == y,
            forall|j: int| 0 <= j < y ==> (#[trigger] out@[j])@ == printed(buffer@[j]),
        decreases n - y,
    {
        let text = line_text(buffer.line(y));
        out.push(text);
        y += 1;
    }
    out
}

/// The text of `buffer`: its lines as they are written out, with a line feed
/// between every two of them.
pub fn serialize(buffer: &Buffer) -> (out: String)
    ensures
        out@ == serialized(buffer@),
{
    let mut out = String::new();
    let n = buffer.height();
    let mut y: usize = 0;
    while y < n
        invariant
            n == buffer@.len(),
            y <= n,
            out@ == serialized(buffer@.subrange(0, y as int)),
        decreases n - y,
    {
        let text = line_text(buffer.line(y));
        proof {
            assert(buffer@.subrange(0, y + 1).drop_last() =~= buffer@.subrange(0, y as int));
        }
        if y > 0 {
            out.push('\n');
        }
        out.append(text.as_str());
        proof {
            if y == 0 {
                assert(Seq::<char>::empty() + text@ =~= text@);
            }
        }
        y += 1;
    }
    proof {
        assert(buffer@.subrange(0, n as int) =~= buffer@);
    }
    out
}

} // verus!
