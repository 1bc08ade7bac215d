//! Text tables: column widths, truncation to the terminal width and the
//! rendered lines.
use vstd::prelude::*;
use unicode_width::{UnicodeWidthChar, UnicodeWidthStr};
use crate::text::{append, chars_of, is_ascii_alpha, join, join_vec, repeat, repeat_vec, string_of, texts_of};

verus! {

/// The display width of a text as `UnicodeWidthStr::width` measures it.
pub uninterp spec fn text_width(s: Seq<char>) -> usize;

/// The display width of a character as `UnicodeWidthChar::width` measures
/// it (`None` for control characters).
pub uninterp spec fn char_width(c: char) -> Option<usize>;

/// Wraps `UnicodeWidthStr::width`.
#[verifier::external_body]
fn str_width(s: &str) -> (res: usize)
    ensures
        res == text_width(s@),
{
    UnicodeWidthStr::width(s)
}

/// Wraps `UnicodeWidthChar::width`.
#[verifier::external_body]
fn char_cols(c: char) -> (res: Option<usize>)
    ensures
        res == char_width(c),
{
    UnicodeWidthChar::width(c)
}

/// The characters after an escape sequence's introducer: everything up to
/// and including the first ASCII letter is dropped (everything, when there
/// is none).
pub open spec fn after_csi(s: Seq<char>) -> Seq<char>
    decreases s.len(),
{
    if s.len() == 0 {
        s
    } else if is_ascii_alpha(s[0]) {
        s.drop_first()
    } else {
        after_csi(s.drop_first())
    }
}

/// A text without its ANSI escape sequences (`ESC [` up to the next ASCII
/// letter).
pub open spec fn strip_ansi_view(s: Seq<char>) -> Seq<char>
    decreases s.len(),
{
    if s.len() == 0 {
        s
    } else if s.len() >= 2 && s[0] == '\u{1b}' && s[1] == '[' {
        proof {
            lemma_after_csi_len(s.skip(2));
        }
        strip_ansi_view(after_csi(s.skip(2)))
    } else {
        seq![s[0]] + strip_ansi_view(s.drop_first())
    }
}

pub proof fn lemma_after_csi_len(s: Seq<char>)
    ensures
        after_csi(s).len() <= s.len(),
    decreases s.len(),
{
    if s.len() > 0 && !is_ascii_alpha(s[0]) {
        lemma_after_csi_len(s.drop_first());
    }
}

/// The display width of a text, not counting its escape sequences.
pub open spec fn width_of(s: Seq<char>) -> int {
    text_width(strip_ansi_view(s)) as int
}

/// A text without its ANSI escape sequences.
pub fn strip_ansi(value: &Vec<char>) -> (res: Vec<char>)
    ensures
        res@ == strip_ansi_view(value@),
{
    let mut out: Vec<char> = Vec::new();
    let mut i: usize = 0;
    assert(value@.skip(0) == value@);
    while i < value.len()
        invariant
            i <= value.len(),
            strip_ansi_view(value@) == out@ + strip_ansi_view(value@.skip(i as int)),
        decreases value.len() - i,
    {
        let ghost rest = value@.skip(i as int);
        if value[i] == '\u{1b}' && i + 1 < value.len() && value[i + 1] == '[' {
            let mut j: usize = i + 2;
            assert(rest.skip(2) == value@.skip(j as int));
            while j < value.len() && !crate::text::is_ascii_alphabetic(value[j])
                invariant
                    i + 2 <= j <= value.len(),
                    after_csi(rest.skip(2)) == after_csi(value@.skip(j as int)),
                decreases value.len() - j,
            {
                assert(value@.skip(j as int).drop_first() == value@.skip(j + 1));
                j = j + 1;
            }
            if j < value.len() {
                assert(value@.skip(j as int).drop_first() == value@.skip(j + 1));
                j = j + 1;
            }
            i = j;
        } else {
            let ghost before = out@;
            out.push(value[i]);
            assert(rest.drop_first() == value@.skip(i + 1));
            assert(before + (seq![rest[0]] + strip_ansi_view(rest.drop_first())) =~= out@
                + strip_ansi_view(value@.skip(i + 1)));
            i = i + 1;
        }
    }
    assert(out@ + Seq::<char>::empty() == out@);
    out
}

/// The display width of a text, not counting its escape sequences.
pub fn display_width(value: &Vec<char>) -> (res: usize)
    ensures
        res == width_of(value@),
{
    let s = strip_ansi(value);
    let t = string_of(&s);
    str_width(t.as_str())
}

/// The columns a character takes (0 when it has no width).
pub open spec fn cols(c: char) -> int {
    match char_width(c) {
        Some(w) => w as int,
        None => 0,
    }
}

/// The longest prefix of `cs` whose characters fit in `target` columns
/// after `used` columns.
pub open spec fn fitting_prefix(cs: Seq<char>, target: int, used: int) -> Seq<char>
    decreases cs.len(),
{
    if cs.len() == 0 {
        cs
    } else if used + cols(cs[0]) > target {
        Seq::empty()
    } else {
        seq![cs[0]] + fitting_prefix(cs.drop_first(), target, used + cols(cs[0]))
    }
}

/// `a - b`, or 0 when that would be negative.
pub open spec fn sat_sub(a: int, b: int) -> int {
    if a >= b {
        a - b
    } else {
        0
    }
}

/// A text cut to `width` columns: kept whole when it fits; otherwise empty
/// for width 0, `…` for width 1, and else the characters that fit before a
/// final `…`.
pub open spec fn truncated(value: Seq<char>, width: int) -> Seq<char> {
    if width_of(value) <= width {
        value
    } else if width == 0 {
        Seq::empty()
    } else if width == 1 {
        "…"@
    } else {
        fitting_prefix(value, sat_sub(width, width_of("…"@)), 0) + "…"@
    }
}

/// A text padded with spaces to `width` columns.
pub open spec fn padded(value: Seq<char>, width: int) -> Seq<char> {
    value + repeat(' ', sat_sub(width, width_of(value)) as nat)
}

/// A text cut to `width` columns.
pub fn truncate_to_width(value: &Vec<char>, width: usize) -> (res: Vec<char>)
    ensures
        res@ == truncated(value@, width as int),
{
    if display_width(value) <= width {
        return value.clone();
    }
    if width == 0 {
        return Vec::new();
    }
    let ellipsis = chars_of("…");
    if width == 1 {
        return ellipsis;
    }
    let ew = display_width(&ellipsis);
    let target = if width >= ew {
        width - ew
    } else {
        0
    };
    let mut out: Vec<char> = Vec::new();
    let mut used: usize = 0;
    let mut i: usize = 0;
    assert(value@.skip(0) == value@);
    while i < value.len()
        invariant
            i <= value.len(),
            used <= target,
            fitting_prefix(value@, target as int, 0) == out@ + fitting_prefix(
                value@.skip(i as int),
                target as int,
                used as int,
            ),
        ensures
            fitting_prefix(value@, target as int, 0) == out@,
        decreases value.len() - i,
    {
        let c = value[i];
        let w = match char_cols(c) {
            Some(w) => w,
            None => 0,
        };
        let ghost rest = value@.skip(i as int);
        assert(rest[0] == c);
        if w > target - used {
            assert(out@ + Seq::<char>::empty() == out@);
            break;
        }
        let ghost before = out@;
        out.push(c);
        assert(rest.drop_first() == value@.skip(i + 1));
        assert(before + (seq![c] + fitting_prefix(rest.drop_first(), target as int, used + w))
            =~= out@ + fitting_prefix(value@.skip(i + 1), target as int, used + w));
        used = used + w;
        i = i + 1;
    }
    append(&mut out, &ellipsis);
    out
}

/// A text padded with spaces to `width` columns.
pub fn pad_to_width(value: Vec<char>, width: usize) -> (res: Vec<char>)
    ensures
        res@ == padded(value@, width as int),
{
    let w = display_width(&value);
    let n = if width >= w {
        width - w
    } else {
        0
    };
    let spaces = repeat_vec(' ', n);
    let mut out = value;
    append(&mut out, &spaces);
    out
}

/// A cell as rendered in a column of width `width`.
pub open spec fn cell_text(value: Seq<char>, width: int) -> Seq<char> {
    padded(truncated(value, width), width)
}

/// The width of column `j` (0 beyond the known columns).
pub open spec fn width_at(ws: Seq<usize>, j: int) -> int {
    if 0 <= j < ws.len() {
        ws[j] as int
    } else {
        0
    }
}

/// A row rendered with the given column widths, cells separated by two
/// spaces.
pub open spec fn line_view(row: Seq<Seq<char>>, ws: Seq<usize>) -> Seq<char> {
    join(Seq::new(row.len(), |j: int| cell_text(row[j], width_at(ws, j))), "  "@)
}

/// A row rendered with the given column widths.
pub fn render_row(row: &Vec<Vec<char>>, widths: &Vec<usize>) -> (res: Vec<char>)
    ensures
        res@ == line_view(cells_view(row@), widths@),
{
    let ghost rv = cells_view(row@);
    let mut cells: Vec<Vec<char>> = Vec::new();
    let mut j: usize = 0;
    while j < row.len()
        invariant
            j <= row.len(),
            rv == cells_view(row@),
            cells@.len() == j,
            forall|k: int| 0 <= k < j ==> #[trigger] cells@[k]@ == cell_text(rv[k], width_at(widths@, k)),
        decreases row.len() - j,
    {
        let w = if j < widths.len() {
            widths[j]
        } else {
            0
        };
        let t = truncate_to_width(&row[j], w);
        let p = pad_to_width(t, w);
        cells.push(p);
        j = j + 1;
    }
    assert(cells@.map_values(|p: Vec<char>| p@) =~= Seq::new(
        rv.len(),
        |k: int| cell_text(rv[k], width_at(widths@, k)),
    ));
    let sep = chars_of("  ");
    join_vec(&cells, &sep)
}

/// Column widths widened to fit a row's cells (cells beyond the known
/// columns are ignored).
pub open spec fn widen(ws: Seq<usize>, row: Seq<Seq<char>>) -> Seq<usize> {
    Seq::new(
        ws.len(),
        |j: int|
            if j < row.len() && width_of(row[j]) > ws[j] {
                width_of(row[j]) as usize
            } else {
                ws[j]
            },
    )
}

/// Column widths widened to fit every row.
pub open spec fn widths_over(ws: Seq<usize>, rows: Seq<Seq<Seq<char>>>) -> Seq<usize>
    decreases rows.len(),
{
    if rows.len() == 0 {
        ws
    } else {
        widen(widths_over(ws, rows.drop_last()), rows.last())
    }
}

/// The sum of the widths.
pub open spec fn total(ws: Seq<usize>) -> int
    decreases ws.len(),
{
    if ws.len() == 0 {
        0
    } else {
        total(ws.drop_last()) + ws.last()
    }
}

/// The column that is narrowed next: the last of the widest columns wider
/// than 8 (-1 when there is none).
pub open spec fn pick(ws: Seq<usize>) -> int
    decreases ws.len(),
{
    if ws.len() == 0 {
        -1
    } else {
        let p = pick(ws.drop_last());
        let i = ws.len() - 1;
        if ws[i] > 8 && (p < 0 || ws[i] >= ws[p]) {
            i
        } else {
            p
        }
    }
}

pub proof fn lemma_pick(ws: Seq<usize>)
    ensures
        -1 <= pick(ws) < ws.len(),
        pick(ws) >= 0 ==> ws[pick(ws)] > 8,
        pick(ws) < 0 ==> forall|k: int| 0 <= k < ws.len() ==> #[trigger] ws[k] <= 8,
        pick(ws) >= 0 ==> forall|k: int| 0 <= k < ws.len() && #[trigger] ws[k] > 8 ==> ws[k] <= ws[pick(ws)],
    decreases ws.len(),
{
    if ws.len() > 0 {
        let d = ws.drop_last();
        lemma_pick(d);
        assert(forall|k: int| 0 <= k < d.len() ==> d[k] == ws[k]);
    }
}

pub proof fn lemma_total_update(ws: Seq<usize>, i: int, v: usize)
    requires
        0 <= i < ws.len(),
    ensures
        total(ws.update(i, v)) == total(ws) - ws[i] + v,
    decreases ws.len(),
{
    if i < ws.len() - 1 {
        assert(ws.update(i, v).drop_last() == ws.drop_last().update(i, v));
        lemma_total_update(ws.drop_last(), i, v);
    } else {
        assert(ws.update(i, v).drop_last() == ws.drop_last());
    }
}

pub proof fn lemma_total_nonneg(ws: Seq<usize>)
    ensures
        total(ws) >= 0,
    decreases ws.len(),
{
    if ws.len() > 0 {
        lemma_total_nonneg(ws.drop_last());
    }
}

/// The widths narrowed, one column at a time by one, until the columns and
/// the separators fit in `term` columns or no column is wider than 8.
pub open spec fn fit(ws: Seq<usize>, sep: int, term: int) -> Seq<usize>
    decreases total(ws),
{
    if total(ws) + sep > term && pick(ws) >= 0 {
        proof {
            lemma_pick(ws);
            lemma_total_update(ws, pick(ws), (ws[pick(ws)] - 1) as usize);
            lemma_total_nonneg(ws.update(pick(ws), (ws[pick(ws)] - 1) as usize));
        }
        fit(ws.update(pick(ws), (ws[pick(ws)] - 1) as usize), sep, term)
    } else {
        ws
    }
}

/// Narrowing keeps one width per column, never widens a column, keeps every
/// column at least as wide as 8 or its own width, and ends with a table
/// that fits the terminal or has no column wider than 8 left to narrow.
pub proof fn law_fit_fits(ws: Seq<usize>, sep: int, term: int)
    ensures
        fit(ws, sep, term).len() == ws.len(),
        forall|k: int| 0 <= k < ws.len() ==> #[trigger] fit(ws, sep, term)[k] <= ws[k],
        forall|k: int|
            0 <= k < ws.len() ==> #[trigger] fit(ws, sep, term)[k] >= if ws[k] < 8 {
                ws[k]
            } else {
                8
            },
        total(fit(ws, sep, term)) + sep <= term || forall|k: int|
            0 <= k < ws.len() ==> #[trigger] fit(ws, sep, term)[k] <= 8,
    decreases total(ws),
{
    if total(ws) + sep > term && pick(ws) >= 0 {
        lemma_pick(ws);
        let p = pick(ws);
        let next = ws.update(p, (ws[p] - 1) as usize);
        lemma_total_update(ws, p, (ws[p] - 1) as usize);
        lemma_total_nonneg(next);
        law_fit_fits(next, sep, term);
        assert(fit(ws, sep, term) == fit(next, sep, term));
        assert forall|k: int| 0 <= k < ws.len() implies #[trigger] fit(ws, sep, term)[k] >= if ws[k]
            < 8 {
            ws[k]
        } else {
            8
        } by {
            assert(fit(next, sep, term)[k] >= if next[k] < 8 {
                next[k]
            } else {
                8
            });
        }
    } else if pick(ws) < 0 {
        lemma_pick(ws);
    }
}

/// The two spaces between each pair of neighbouring columns.
pub open spec fn separators(n: int) -> int {
    if n > 0 {
        (n - 1) * 2
    } else {
        0
    }
}

/// Do the widths and `sep` exceed `term`.
fn exceeds(ws: &Vec<usize>, sep: usize, term: usize) -> (res: bool)
    ensures
        res == (total(ws@) + sep > term),
{
    if sep > term {
        proof {
            lemma_total_nonneg(ws@);
        }
        return true;
    }
    let mut acc: usize = sep;
    let mut i: usize = 0;
    while i < ws.len()
        invariant
            i <= ws.len(),
            sep <= acc <= term,
            acc == sep + total(ws@.take(i as int)),
        decreases ws.len() - i,
    {
        assert(ws@.take(i as int + 1).drop_last() == ws@.take(i as int));
        if ws[i] > term - acc {
            proof {
                lemma_total_prefix(ws@, i as int + 1);
            }
            return true;
        }
        acc = acc + ws[i];
        i = i + 1;
    }
    assert(ws@.take(ws.len() as int) == ws@);
    false
}

pub proof fn lemma_total_prefix(ws: Seq<usize>, n: int)
    requires
        0 <= n <= ws.len(),
    ensures
        total(ws.take(n)) <= total(ws),
    decreases ws.len() - n,
{
    if n < ws.len() {
        lemma_total_prefix(ws, n + 1);
        assert(ws.take(n + 1).drop_last() == ws.take(n));
    } else {
        assert(ws.take(n) == ws);
    }
}

/// The column that is narrowed next.
fn pick_column(ws: &Vec<usize>) -> (res: Option<usize>)
    ensures
        match res {
            Some(i) => pick(ws@) == i as int,
            None => pick(ws@) < 0,
        },
{
    let mut best: Option<usize> = None;
    let mut i: usize = 0;
    while i < ws.len()
        invariant
            i <= ws.len(),
            match best {
                Some(b) => pick(ws@.take(i as int)) == b as int && b < i,
                None => pick(ws@.take(i as int)) < 0,
            },
        decreases ws.len() - i,
    {
        assert(ws@.take(i as int + 1).drop_last() == ws@.take(i as int));
        let take_it = match best {
            Some(b) => ws[i] > 8 && ws[i] >= ws[b],
            None => ws[i] > 8,
        };
        if take_it {
            best = Some(i);
        }
        i = i + 1;
    }
    assert(ws@.take(ws.len() as int) == ws@);
    best
}

/// Narrows the widths to fit `term` columns (see `fit`).
pub fn fit_widths_to_terminal(widths: &mut Vec<usize>, term: usize)
    ensures
        final(widths)@ == fit(old(widths)@, separators(old(widths)@.len() as int), term as int),
{
    let n: usize = widths.len();
    // With this many columns the separators alone are wider than any terminal.
    let huge = n > 0 && n - 1 > usize::MAX / 2;
    let sep: usize = if n > 0 && !huge {
        (n - 1) * 2
    } else {
        0
    };
    let ghost sep_i = separators(n as int);
    let ghost goal = fit(widths@, sep_i, term as int);
    loop
        invariant
            widths@.len() == n,
            sep_i == separators(n as int),
            huge == (n > 0 && n - 1 > usize::MAX / 2),
            !huge ==> sep as int == sep_i,
            fit(widths@, sep_i, term as int) == goal,
        ensures
            widths@ == goal,
        decreases total(widths@),
    {
        let over = if huge {
            true
        } else {
            exceeds(widths, sep, term)
        };
        assert(over == (total(widths@) + sep_i > term)) by {
            lemma_total_nonneg(widths@);
        }
        if !over {
            break;
        }
        match pick_column(widths) {
            None => {
                break;
            },
            Some(i) => {
                proof {
                    lemma_pick(widths@);
                    lemma_total_update(widths@, i as int, (widths@[i as int] - 1) as usize);
                }
                let ghost prev = widths@;
                proof {
                    lemma_total_nonneg(prev);
                }
                let v = widths.remove(i);
                widths.insert(i, v - 1);
                assert(widths@ =~= prev.update(i as int, (v - 1) as usize));
                proof {
                    lemma_total_nonneg(widths@);
                }
            },
        }
    }
}

/// The width of each header.
pub open spec fn header_widths(headers: Seq<Seq<char>>) -> Seq<usize> {
    headers.map_values(|h: Seq<char>| width_of(h) as usize)
}

/// The column widths of a table: each column as wide as its header and its
/// widest cell, then narrowed to the terminal's width when one is given.
pub open spec fn table_widths(
    headers: Seq<Seq<char>>,
    rows: Seq<Seq<Seq<char>>>,
    term: Option<usize>,
) -> Seq<usize> {
    let ws = widths_over(header_widths(headers), rows);
    match term {
        Some(t) => fit(ws, separators(ws.len() as int), t as int),
        None => ws,
    }
}

/// A rule of dashes under each column.
pub open spec fn dashes(ws: Seq<usize>) -> Seq<Seq<char>> {
    ws.map_values(|w: usize| repeat('-', w as nat))
}

/// The lines of a table: without headers, each row's cells separated by
/// tabs; otherwise the header line, a rule of dashes and the row lines,
/// all with the table's column widths.
pub open spec fn table_lines(
    headers: Seq<Seq<char>>,
    rows: Seq<Seq<Seq<char>>>,
    term: Option<usize>,
) -> Seq<Seq<char>> {
    if headers.len() == 0 {
        rows.map_values(|r: Seq<Seq<char>>| join(r, "\t"@))
    } else {
        let ws = table_widths(headers, rows, term);
        seq![line_view(headers, ws), line_view(dashes(ws), ws)] + rows.map_values(
            |r: Seq<Seq<char>>| line_view(r, ws),
        )
    }
}

/// The characters of each cell.
pub open spec fn cells_view(row: Seq<Vec<char>>) -> Seq<Seq<char>> {
    row.map_values(|c: Vec<char>| c@)
}

pub open spec fn rows_texts(rows: Seq<Vec<String>>) -> Seq<Seq<Seq<char>>> {
    rows.map_values(|r: Vec<String>| texts_of(r@))
}

fn chars_row(row: &Vec<String>) -> (res: Vec<Vec<char>>)
    ensures
        cells_view(res@) == texts_of(row@),
{
    let mut out: Vec<Vec<char>> = Vec::new();
    let mut i: usize = 0;
    while i < row.len()
        invariant
            i <= row.len(),
            out@.len() == i,
            forall|k: int| 0 <= k < i ==> #[trigger] out@[k]@ == row@[k]@,
        decreases row.len() - i,
    {
        out.push(chars_of(row[i].as_str()));
        i = i + 1;
    }
    assert(cells_view(out@) =~= texts_of(row@));
    out
}

/// Column widths widened to fit a row.
fn widen_to(widths: &mut Vec<usize>, row: &Vec<Vec<char>>)
    ensures
        final(widths)@ == widen(old(widths)@, cells_view(row@)),
{
    let ghost rv = cells_view(row@);
    let ghost w0 = widths@;
    let mut j: usize = 0;
    while j < widths.len()
        invariant
            j <= widths.len(),
            widths@.len() == w0.len(),
            rv == cells_view(row@),
            forall|k: int| 0 <= k < j ==> #[trigger] widths@[k] == widen(w0, rv)[k],
            forall|k: int| j <= k < widths@.len() ==> #[trigger] widths@[k] == w0[k],
        decreases widths.len() - j,
    {
        if j < row.len() {
            let w = display_width(&row[j]);
            if w > widths[j] {
                let ghost prev = widths@;
                let _ = widths.remove(j);
                widths.insert(j, w);
                assert(widths@ =~= prev.update(j as int, w));
            }
        }
        j = j + 1;
    }
    assert(widths@ =~= widen(w0, rv));
}

/// The lines of a table (see `table_lines`); `term` is the terminal's
/// width when the table is to be narrowed to it.
pub fn render_table(headers: &Vec<String>, rows: &Vec<Vec<String>>, term: Option<usize>) -> (res:
    Vec<String>)
    ensures
        texts_of(res@) == table_lines(texts_of(headers@), rows_texts(rows@), term),
{
    let ghost hv = texts_of(headers@);
    let ghost rv = rows_texts(rows@);
    let mut out: Vec<String> = Vec::new();
    if headers.len() == 0 {
        let tab = chars_of("\t");
        let mut i: usize = 0;
        while i < rows.len()
            invariant
                i <= rows.len(),
                rv == rows_texts(rows@),
                tab@ == "\t"@,
                out@.len() == i,
                forall|k: int| 0 <= k < i ==> #[trigger] out@[k]@ == join(rv[k], "\t"@),
            decreases rows.len() - i,
        {
            let cells = chars_row(&rows[i]);
            let line = join_vec(&cells, &tab);
            out.push(string_of(&line));
            i = i + 1;
        }
        assert(texts_of(out@) =~= rv.map_values(|r: Seq<Seq<char>>| join(r, "\t"@)));
        return out;
    }
    let hrow = chars_row(headers);
    let mut widths: Vec<usize> = Vec::new();
    let mut j: usize = 0;
    while j < hrow.len()
        invariant
            j <= hrow.len(),
            cells_view(hrow@) == hv,
            widths@.len() == j,
            forall|k: int| 0 <= k < j ==> #[trigger] widths@[k] == width_of(hv[k]) as usize,
        decreases hrow.len() - j,
    {
        widths.push(display_width(&hrow[j]));
        j = j + 1;
    }
    assert(widths@ =~= header_widths(hv));
    let mut crows: Vec<Vec<Vec<char>>> = Vec::new();
    let mut r: usize = 0;
    while r < rows.len()
        invariant
            r <= rows.len(),
            rv == rows_texts(rows@),
            crows@.len() == r,
            forall|k: int| 0 <= k < r ==> #[trigger] cells_view(crows@[k]@) == rv[k],
            widths@ == widths_over(header_widths(hv), rv.take(r as int)),
        decreases rows.len() - r,
    {
        let cells = chars_row(&rows[r]);
        widen_to(&mut widths, &cells);
        assert(rv.take(r as int + 1).drop_last() == rv.take(r as int));
        crows.push(cells);
        r = r + 1;
    }
    assert(rv.take(rows.len() as int) == rv);
    match term {
        Some(t) => fit_widths_to_terminal(&mut widths, t),
        None => {},
    }
    let ghost ws = widths@;
    assert(ws == table_widths(hv, rv, term));
    out.push(string_of(&render_row(&hrow, &widths)));
    let mut rule: Vec<Vec<char>> = Vec::new();
    let mut k: usize = 0;
    while k < widths.len()
        invariant
            k <= widths.len(),
            rule@.len() == k,
            forall|m: int| 0 <= m < k ==> #[trigger] rule@[m]@ == repeat('-', widths@[m] as nat),
        decreases widths.len() - k,
    {
        rule.push(repeat_vec('-', widths[k]));
        k = k + 1;
    }
    assert(cells_view(rule@) =~= dashes(ws));
    out.push(string_of(&render_row(&rule, &widths)));
    let mut i: usize = 0;
    while i < crows.len()
        invariant
            i <= crows.len(),
            crows@.len() == rv.len(),
            widths@ == ws,
            forall|k: int| 0 <= k < crows@.len() ==> #[trigger] cells_view(crows@[k]@) == rv[k],
            out@.len() == i + 2,
            out@[0]@ == line_view(hv, ws),
            out@[1]@ == line_view(dashes(ws), ws),
            forall|m: int| 0 <= m < i ==> #[trigger] out@[m + 2]@ == line_view(rv[m], ws),
        decreases crows.len() - i,
    {
        let line = render_row(&crows[i], &widths);
        out.push(string_of(&line));
        i = i + 1;
    }
    let ghost expect = seq![line_view(hv, ws), line_view(dashes(ws), ws)] + rv.map_values(
        |r: Seq<Seq<char>>| line_view(r, ws),
    );
    assert forall|m: int| 0 <= m < out@.len() implies texts_of(out@)[m] == expect[m] by {
        if m >= 2 {
            assert(out@[(m - 2) + 2]@ == line_view(rv[m - 2], ws));
        }
    }
    assert(texts_of(out@) =~= expect);
    out
}

/// Asks `terminal_size::terminal_size_of` for the size of the terminal on
/// standard output and gives its width in columns (`None` when standard
/// output is not a terminal). What comes back depends on the terminal; only
/// that a width fits the `u16` it is reported in is stated.
#[verifier::external_body]
fn terminal_width() -> (res: Option<usize>)
    ensures
        res matches Some(w) ==> w <= u16::MAX,
{
    terminal_size::terminal_size_of(std::io::stdout()).map(
        |(terminal_size::Width(width), _)| width as usize,
    )
}

/// The lines of a table (see `table_lines`), narrowed to the terminal's
/// width when `truncate` is set and the width is known.
pub fn table_text(headers: &Vec<String>, rows: &Vec<Vec<String>>, truncate: bool) -> (res: Vec<
    String,
>)
    ensures
        !truncate ==> texts_of(res@) == table_lines(texts_of(headers@), rows_texts(rows@), None),
        truncate ==> exists|t: Option<usize>|
            texts_of(res@) == #[trigger] table_lines(texts_of(headers@), rows_texts(rows@), t),
{
    let term = if truncate {
        terminal_width()
    } else {
        None
    };
    render_table(headers, rows, term)
}

} // verus!
