//! Textual grid format: '1' for a live cell, '0' for a dead one, one row
//! per line. Rows are trimmed of surrounding blanks and blank lines are
//! ignored when reading.

use vstd::prelude::*;
use crate::errors::{EngineError, InputFault};
use crate::grid::{Grid, lemma_row_major};
use crate::settings::BoundaryCondition;

verus! {

/// Blank characters stripped from the ends of each row.
pub open spec fn is_blank(c: char) -> bool {
    c == ' ' || c == '\t' || c == '\r'
}

/// The lines of a character sequence, split at every newline. A trailing
/// newline yields a final empty line.
pub open spec fn split_lines(s: Seq<char>) -> Seq<Seq<char>>
    decreases s.len(),
{
    if s.len() == 0 {
        seq![Seq::<char>::empty()]
    } else if s[0] == '\n' {
        seq![Seq::<char>::empty()] + split_lines(s.drop_first())
    } else {
        let rest = split_lines(s.drop_first());
        seq![seq![s[0]] + rest[0]] + rest.drop_first()
    }
}

/// Drops leading blanks.
pub open spec fn trim_front(l: Seq<char>) -> Seq<char>
    decreases l.len(),
{
    if l.len() > 0 && is_blank(l[0]) {
        trim_front(l.drop_first())
    } else {
        l
    }
}

/// Drops trailing blanks.
pub open spec fn trim_back(l: Seq<char>) -> Seq<char>
    decreases l.len(),
{
    if l.len() > 0 && is_blank(l[l.len() - 1]) {
        trim_back(l.drop_last())
    } else {
        l
    }
}

/// Drops blanks from both ends.
pub open spec fn trim_blanks(l: Seq<char>) -> Seq<char> {
    trim_back(trim_front(l))
}

/// Trims every raw line and keeps the non-empty ones, in order.
pub open spec fn clean_of(raw: Seq<Seq<char>>) -> Seq<Seq<char>>
    decreases raw.len(),
{
    if raw.len() == 0 {
        Seq::empty()
    } else {
        clean_of(raw.drop_last()) + if trim_blanks(raw.last()).len() > 0 {
            seq![trim_blanks(raw.last())]
        } else {
            Seq::<Seq<char>>::empty()
        }
    }
}

/// The trimmed non-blank rows of a textual grid.
pub open spec fn clean_lines(s: Seq<char>) -> Seq<Seq<char>> {
    clean_of(split_lines(s))
}

/// The rows all share the first row's length and hold only '0' and '1'.
pub open spec fn rows_well_formed(ls: Seq<Seq<char>>) -> bool {
    &&& ls.len() > 0
    &&& forall|i: int| 0 <= i < ls.len() ==> #[trigger] ls[i].len() == ls[0].len()
    &&& forall|i: int, j: int|
        0 <= i < ls.len() && 0 <= j < ls[i].len() ==> ls[i][j] == '0' || ls[i][j] == '1'
}

/// Splitting behaves like appending to the last line, or opening a new one.
proof fn lemma_split_push(s: Seq<char>, c: char)
    ensures
        split_lines(s.push(c)) == if c == '\n' {
            split_lines(s).push(Seq::<char>::empty())
        } else {
            split_lines(s).update(
                split_lines(s).len() - 1,
                split_lines(s).last().push(c),
            )
        },
        split_lines(s).len() >= 1,
    decreases s.len(),
{
    if s.len() == 0 {
        let t = s.push(c);
        assert(t.len() == 1);
        assert(t[0] == c);
        assert(t.drop_first() =~= Seq::<char>::empty());
        assert(split_lines(Seq::<char>::empty()) == seq![Seq::<char>::empty()]);
        assert(split_lines(s) == seq![Seq::<char>::empty()]);
        if c == '\n' {
            assert(split_lines(t) == seq![Seq::<char>::empty()] + split_lines(t.drop_first()));
            assert(split_lines(t) =~= split_lines(s).push(Seq::<char>::empty()));
        } else {
            assert(split_lines(t) == seq![seq![t[0]] + split_lines(t.drop_first())[0]]
                + split_lines(t.drop_first()).drop_first());
            assert(seq![t[0]] + split_lines(t.drop_first())[0] =~= seq![c]);
            assert(split_lines(t) =~= split_lines(s).update(
                0,
                split_lines(s).last().push(c),
            ));
        }
    } else {
        lemma_split_push(s.drop_first(), c);
        assert(s.push(c).drop_first() =~= s.drop_first().push(c));
        assert(s.push(c)[0] == s[0]);
        let rest = split_lines(s.drop_first());
        let rest2 = split_lines(s.drop_first().push(c));
        if s[0] == '\n' {
            if c == '\n' {
                assert(split_lines(s.push(c)) =~= split_lines(s).push(Seq::<char>::empty()));
            } else {
                assert(split_lines(s.push(c)) =~= split_lines(s).update(
                    split_lines(s).len() - 1,
                    split_lines(s).last().push(c),
                ));
            }
        } else {
            if c == '\n' {
                assert(rest2[0] == rest[0]);
                assert(rest2.drop_first() =~= rest.drop_first().push(Seq::<char>::empty()));
                assert(split_lines(s.push(c)) =~= split_lines(s).push(Seq::<char>::empty()));
            } else {
                if rest.len() == 1 {
                    assert(rest2[0] == rest[0].push(c));
                    assert(split_lines(s.push(c)) =~= split_lines(s).update(
                        split_lines(s).len() - 1,
                        split_lines(s).last().push(c),
                    ));
                } else {
                    assert(rest2[0] == rest[0]);
                    assert(rest2.drop_first() =~= rest.drop_first().update(
                        rest.drop_first().len() - 1,
                        rest.drop_first().last().push(c),
                    ));
                    assert(split_lines(s.push(c)) =~= split_lines(s).update(
                        split_lines(s).len() - 1,
                        split_lines(s).last().push(c),
                    ));
                }
            }
        }
    }
}

/// Trims a row of characters; the result is the subrange that remains
/// after both ends shed their blanks.
fn trim_vec(v: &Vec<char>) -> (r: Vec<char>)
    ensures
        r@ == trim_blanks(v@),
{
    let n = v.len();
    let mut start: usize = 0;
    proof {
        assert(v@.skip(0) =~= v@);
    }
    while start < n && (v[start] == ' ' || v[start] == '\t' || v[start] == '\r')
        invariant
            start <= n,
            n == v@.len(),
            trim_front(v@) == trim_front(v@.skip(start as int)),
        decreases n - start,
    {
        proof {
            assert(v@.skip(start as int).drop_first() =~= v@.skip(start as int + 1));
        }
        start += 1;
    }
    let ghost fronted = v@.skip(start as int);
    proof {
        assert(trim_front(v@) == fronted);
    }
    let mut end: usize = n;
    proof {
        assert(v@.subrange(start as int, end as int) =~= fronted);
    }
    while end > start && (v[end - 1] == ' ' || v[end - 1] == '\t' || v[end - 1] == '\r')
        invariant
            start <= end <= n,
            n == v@.len(),
            trim_back(fronted) == trim_back(v@.subrange(start as int, end as int)),
        decreases end,
    {
        proof {
            assert(v@.subrange(start as int, end as int).drop_last() =~= v@.subrange(
                start as int,
                end as int - 1,
            ));
        }
        end -= 1;
    }
    let ghost trimmed = v@.subrange(start as int, end as int);
    proof {
        assert(trim_back(trimmed) == trimmed);
        assert(trim_blanks(v@) == trimmed);
    }
    let mut r: Vec<char> = Vec::new();
    let mut i: usize = start;
    while i < end
        invariant
            start <= i <= end <= n,
            n == v@.len(),
            r@ =~= v@.subrange(start as int, i as int),
        decreases end - i,
    {
        r.push(v[i]);
        proof {
            assert(r@ =~= v@.subrange(start as int, i as int + 1));
        }
        i += 1;
    }
    proof {
        assert(r@ =~= trimmed);
    }
    r
}

/// Splits a string into its trimmed, non-blank rows.
fn collect_clean_lines(content: &str) -> (r: Vec<Vec<char>>)
    ensures
        r@.map_values(|l: Vec<char>| l@) == clean_lines(content@),
{
    let n = content.unicode_len();
    let mut lines: Vec<Vec<char>> = Vec::new();
    let mut current: Vec<char> = Vec::new();
    let ghost mut raw_done: Seq<Seq<char>> = Seq::empty();
    let mut i: usize = 0;
    proof {
        assert(content@.subrange(0, 0) =~= Seq::<char>::empty());
        assert(split_lines(content@.subrange(0, 0)) =~= raw_done.push(current@));
    }
    while i < n
        invariant
            i <= n,
            n == content@.len(),
            split_lines(content@.subrange(0, i as int)) == raw_done.push(current@),
            lines@.map_values(|l: Vec<char>| l@) == clean_of(raw_done),
        decreases n - i,
    {
        let c = content.get_char(i);
        proof {
            assert(content@.subrange(0, i as int + 1) =~= content@.subrange(0, i as int).push(
                content@[i as int],
            ));
            lemma_split_push(content@.subrange(0, i as int), content@[i as int]);
        }
        if c == '\n' {
            let trimmed = trim_vec(&current);
            let ghost old_raw = raw_done;
            let ghost old_lines = lines@;
            proof {
                raw_done = raw_done.push(current@);
                assert(split_lines(content@.subrange(0, i as int + 1)) =~= raw_done.push(
                    Seq::<char>::empty(),
                ));
                assert(raw_done.drop_last() =~= old_raw);
                assert(raw_done.last() == current@);
            }
            if trimmed.len() > 0 {
                lines.push(trimmed);
            }
            proof {
                assert(clean_of(raw_done) == clean_of(old_raw) + if trim_blanks(current@).len()
                    > 0 {
                    seq![trim_blanks(current@)]
                } else {
                    Seq::<Seq<char>>::empty()
                });
                if trimmed@.len() > 0 {
                    assert(lines@ =~= old_lines.push(trimmed));
                }
                assert(lines@.map_values(|l: Vec<char>| l@) =~= clean_of(raw_done));
            }
            current = Vec::new();
        } else {
            current.push(c);
            proof {
                let prev = split_lines(content@.subrange(0, i as int));
                assert(prev.update(prev.len() - 1, prev.last().push(content@[i as int]))
                    =~= raw_done.push(current@));
            }
        }
        i += 1;
    }
    let trimmed = trim_vec(&current);
    let ghost old_raw = raw_done;
    let ghost old_lines = lines@;
    proof {
        assert(content@.subrange(0, n as int) =~= content@);
        raw_done = raw_done.push(current@);
        assert(raw_done.drop_last() =~= old_raw);
        assert(raw_done.last() == current@);
    }
    if trimmed.len() > 0 {
        lines.push(trimmed);
    }
    proof {
        assert(clean_of(raw_done) == clean_of(old_raw) + if trim_blanks(current@).len() > 0 {
            seq![trim_blanks(current@)]
        } else {
            Seq::<Seq<char>>::empty()
        });
        if trimmed@.len() > 0 {
            assert(lines@ =~= old_lines.push(trimmed));
        }
        assert(lines@.map_values(|l: Vec<char>| l@) =~= clean_of(raw_done));
    }
    lines
}

/// Every cleaned row is non-empty.
proof fn lemma_clean_of_nonempty(raw: Seq<Seq<char>>)
    ensures
        forall|i: int| 0 <= i < clean_of(raw).len() ==> #[trigger] clean_of(raw)[i].len() > 0,
    decreases raw.len(),
{
    if raw.len() > 0 {
        lemma_clean_of_nonempty(raw.drop_last());
        assert forall|i: int|
            0 <= i < clean_of(raw).len() implies #[trigger] clean_of(raw)[i].len() > 0 by {
            if i < clean_of(raw.drop_last()).len() {
                assert(clean_of(raw)[i] == clean_of(raw.drop_last())[i]);
            }
        }
    } else {
        assert(clean_of(raw).len() == 0);
    }
}

/// Parses a textual grid. Succeeds exactly when the text holds at least one
/// non-blank row, all trimmed rows share one length, and every character of
/// them is '0' or '1'.
pub fn parse_grid_from_string(content: &str, boundary_condition: BoundaryCondition) -> (r: Result<
    Grid,
    EngineError,
>)
    ensures
        r is Ok <==> rows_well_formed(clean_lines(content@)),
        r matches Ok(g) ==> {
            let ls = clean_lines(content@);
            &&& g.height == ls.len()
            &&& g.width == ls[0].len()
            &&& g.boundary_condition == boundary_condition
            &&& g.wf()
            &&& forall|row: int, col: int|
                0 <= row < g.height && 0 <= col < g.width ==> #[trigger] g.cell(row, col) == (
                ls[row][col] == '1')
        },
        r matches Err(e) ==> match e {
            EngineError::InvalidInput(InputFault::EmptyGrid) => clean_lines(content@).len() == 0,
            EngineError::InvalidInput(InputFault::RowLength { row, expected, actual }) => {
                let ls = clean_lines(content@);
                &&& 0 <= row < ls.len()
                &&& expected == ls[0].len()
                &&& actual == ls[row as int].len()
                &&& expected != actual
            },
            EngineError::InvalidInput(InputFault::BadCharacter { row, col }) => {
                let ls = clean_lines(content@);
                &&& 0 <= row < ls.len()
                &&& 0 <= col < ls[row as int].len()
                &&& ls[row as int][col as int] != '0'
                &&& ls[row as int][col as int] != '1'
            },
            _ => false,
        },
{
    let lines = collect_clean_lines(content);
    let ghost ls = clean_lines(content@);
    proof {
        assert(ls.len() == lines@.len());
        assert(forall|i: int| 0 <= i < lines@.len() ==> ls[i] == #[trigger] lines@[i]@);
    }
    if lines.len() == 0 {
        return Err(EngineError::InvalidInput(InputFault::EmptyGrid));
    }
    let height = lines.len();
    let width = lines[0].len();
    let mut flat: Vec<bool> = Vec::new();
    let mut row: usize = 0;
    while row < height
        invariant
            row <= height,
            ls == clean_lines(content@),
            height == lines@.len(),
            ls.len() == lines@.len(),
            forall|i: int| 0 <= i < lines@.len() ==> ls[i] == #[trigger] lines@[i]@,
            width == ls[0].len(),
            flat@.len() == row * width,
            forall|i: int| 0 <= i < row ==> #[trigger] ls[i].len() == width,
            forall|i: int, j: int|
                0 <= i < row && 0 <= j < width ==> (#[trigger] ls[i][j] == '0' || ls[i][j] == '1'),
            forall|i: int, j: int|
                0 <= i < row && 0 <= j < width ==> #[trigger] flat@[i * width + j] == (ls[i][j]
                    == '1'),
        decreases height - row,
    {
        if lines[row].len() != width {
            proof {
                assert(ls[row as int].len() != ls[0].len());
                assert(!rows_well_formed(ls));
            }
            return Err(EngineError::InvalidInput(InputFault::RowLength {
                row,
                expected: width,
                actual: lines[row].len(),
            }));
        }
        let mut col: usize = 0;
        while col < width
            invariant
                col <= width,
                row < height,
                ls == clean_lines(content@),
                height == lines@.len(),
                ls.len() == lines@.len(),
                forall|i: int| 0 <= i < lines@.len() ==> ls[i] == #[trigger] lines@[i]@,
                width == ls[0].len(),
                lines@[row as int]@.len() == width,
                flat@.len() == row * width + col,
                forall|i: int| 0 <= i < row ==> #[trigger] ls[i].len() == width,
                forall|i: int, j: int|
                    0 <= i < row && 0 <= j < width ==> (#[trigger] ls[i][j] == '0' || ls[i][j]
                        == '1'),
                forall|i: int, j: int|
                    0 <= i < row && 0 <= j < width ==> #[trigger] flat@[i * width + j] == (
                    ls[i][j] == '1'),
                forall|j: int| 0 <= j < col ==> (#[trigger] ls[row as int][j] == '0'
                    || ls[row as int][j] == '1'),
                forall|j: int| 0 <= j < col ==> #[trigger] flat@[row * width + j] == (
                ls[row as int][j] == '1'),
            decreases width - col,
        {
            let ch = lines[row][col];
            if ch != '0' && ch != '1' {
                proof {
                    assert(ls[row as int][col as int] != '0' && ls[row as int][col as int]
                        != '1');
                    assert(!rows_well_formed(ls));
                }
                return Err(EngineError::InvalidInput(InputFault::BadCharacter { row, col }));
            }
            flat.push(ch == '1');
            proof {
                assert forall|i: int, j: int|
                    0 <= i < row && 0 <= j < width implies #[trigger] flat@[i * width + j] == (
                ls[i][j] == '1') by {
                    lemma_row_major(width as int, row as int, i, j);
                }
            }
            col += 1;
        }
        proof {
            assert(row * width + width == (row + 1) * width) by (nonlinear_arith);
            assert forall|i: int, j: int|
                0 <= i < row + 1 && 0 <= j < width implies #[trigger] flat@[i * width + j] == (
            ls[i][j] == '1') by {
                if i < row {
                    lemma_row_major(width as int, row as int, i, j);
                    assert(row * width <= (row + 1) * width) by (nonlinear_arith);
                } else {
                    assert(i == row);
                    assert(flat@[row as int * width + j] == (ls[row as int][j] == '1'));
                }
            }
        }
        row += 1;
    }
    if width == 0 {
        // A cleaned row is never empty, so this branch cannot be reached.
        proof {
            lemma_clean_of_nonempty(split_lines(content@));
            assert(false);
        }
        return Err(EngineError::InvalidInput(InputFault::EmptyGrid));
    }
    let g = Grid { width, height, cells: flat, boundary_condition };
    proof {
        assert(height * width == width * height) by (nonlinear_arith);
        assert forall|r2: int, c2: int|
            0 <= r2 < g.height && 0 <= c2 < g.width implies #[trigger] g.cell(r2, c2) == (
        ls[r2][c2] == '1') by {
            lemma_row_major(width as int, height as int, r2, c2);
        }
        assert(rows_well_formed(ls));
    }
    Ok(g)
}

/// The characters of one rendered row.
pub open spec fn row_chars(w: int, cells: Seq<bool>, row: int) -> Seq<char> {
    Seq::new(w as nat, |j: int| if cells[row * w + j] { '1' } else { '0' })
}

/// The first `r` rows rendered, each closed by a newline.
pub open spec fn render_upto(w: int, cells: Seq<bool>, r: int) -> Seq<char>
    decreases r,
{
    if r <= 0 {
        Seq::empty()
    } else {
        render_upto(w, cells, r - 1) + row_chars(w, cells, r - 1) + seq!['\n']
    }
}

/// Renders a grid as text: one line of '0'/'1' characters per row, each
/// line closed by a newline.
pub fn grid_to_string(grid: &Grid) -> (r: String)
    requires
        grid.wf(),
    ensures
        r@ == render_upto(grid.width as int, grid.cells@, grid.height as int),
{
    proof {
        reveal_strlit("0");
        reveal_strlit("1");
        reveal_strlit("\n");
    }
    let w = grid.width;
    let h = grid.height;
    let mut out = String::new();
    let mut row: usize = 0;
    while row < h
        invariant
            row <= h,
            w == grid.width,
            h == grid.height,
            grid.wf(),
            out@ == render_upto(w as int, grid.cells@, row as int),
            "0"@ =~= seq!['0'],
            "1"@ =~= seq!['1'],
            "\n"@ =~= seq!['\n'],
        decreases h - row,
    {
        let mut col: usize = 0;
        while col < w
            invariant
                col <= w,
                row < h,
                w == grid.width,
                h == grid.height,
                grid.wf(),
                out@ == render_upto(w as int, grid.cells@, row as int) + row_chars(
                    w as int,
                    grid.cells@,
                    row as int,
                ).take(col as int),
                "0"@ =~= seq!['0'],
                "1"@ =~= seq!['1'],
                "\n"@ =~= seq!['\n'],
            decreases w - col,
        {
            proof {
                lemma_row_major(w as int, h as int, row as int, col as int);
            }
            let idx = grid.index(row, col);
            if grid.cells[idx] {
                out.append("1");
            } else {
                out.append("0");
            }
            proof {
                let rc = row_chars(w as int, grid.cells@, row as int);
                assert(rc.take(col as int).push(rc[col as int]) =~= rc.take(col as int + 1));
                assert(out@ =~= render_upto(w as int, grid.cells@, row as int) + rc.take(
                    col as int + 1,
                ));
            }
            col += 1;
        }
        out.append("\n");
        proof {
            let rc = row_chars(w as int, grid.cells@, row as int);
            assert(rc.take(w as int) =~= rc);
            assert(out@ =~= render_upto(w as int, grid.cells@, row as int + 1));
            assert(render_upto(w as int, grid.cells@, row as int + 1).take(0) =~= Seq::<
                char,
            >::empty());
        }
        row += 1;
    }
    out
}

/// A row list rendered as text: each row followed by a newline.
pub open spec fn text_of(ls: Seq<Seq<char>>) -> Seq<char>
    decreases ls.len(),
{
    if ls.len() == 0 {
        Seq::empty()
    } else {
        ls[0] + seq!['\n'] + text_of(ls.drop_first())
    }
}

/// Rendering distributes over concatenation of row lists.
pub proof fn lemma_text_of_concat(a: Seq<Seq<char>>, b: Seq<Seq<char>>)
    ensures
        text_of(a + b) == text_of(a) + text_of(b),
    decreases a.len(),
{
    if a.len() == 0 {
        assert(a + b =~= b);
        assert(text_of(a) + text_of(b) =~= text_of(b));
    } else {
        lemma_text_of_concat(a.drop_first(), b);
        assert((a + b).drop_first() =~= a.drop_first() + b);
        assert((a + b)[0] == a[0]);
        assert(a[0] + seq!['\n'] + (text_of(a.drop_first()) + text_of(b)) =~= (a[0] + seq!['\n']
            + text_of(a.drop_first())) + text_of(b));
    }
}

/// Splitting a rendered row list yields the rows, plus the empty line a
/// trailing newline opens. No row may hold a newline.
pub proof fn lemma_split_text_of(ls: Seq<Seq<char>>)
    requires
        forall|i: int, j: int|
            0 <= i < ls.len() && 0 <= j < ls[i].len() ==> ls[i][j] != '\n',
    ensures
        split_lines(text_of(ls)) == ls.push(Seq::<char>::empty()),
    decreases ls.len(),
{
    if ls.len() == 0 {
        assert(split_lines(text_of(ls)) =~= ls.push(Seq::<char>::empty()));
    } else {
        assert(forall|i: int, j: int|
            0 <= i < ls.drop_first().len() && 0 <= j < ls.drop_first()[i].len()
                ==> #[trigger] ls.drop_first()[i][j] != '\n');
        lemma_split_text_of(ls.drop_first());
        lemma_split_line_prefix(ls[0], text_of(ls.drop_first()));
        assert(text_of(ls) =~= ls[0] + seq!['\n'] + text_of(ls.drop_first()));
        assert(split_lines(text_of(ls)) =~= ls.push(Seq::<char>::empty()));
    }
}

/// Splitting text that opens with a newline-free line and a newline
/// yields that line and then the split of the remainder.
pub proof fn lemma_split_line_prefix(l: Seq<char>, rest: Seq<char>)
    requires
        forall|j: int| 0 <= j < l.len() ==> l[j] != '\n',
    ensures
        split_lines(l + seq!['\n'] + rest) == seq![l] + split_lines(rest),
    decreases l.len(),
{
    let s = l + seq!['\n'] + rest;
    if l.len() == 0 {
        assert(s[0] == '\n');
        assert(s.drop_first() =~= rest);
        assert(l =~= Seq::<char>::empty());
        assert(split_lines(s) == seq![Seq::<char>::empty()] + split_lines(s.drop_first()));
        assert(split_lines(s) =~= seq![l] + split_lines(rest));
    } else {
        assert(forall|j: int| 0 <= j < l.drop_first().len() ==> #[trigger] l.drop_first()[j]
            != '\n');
        lemma_split_line_prefix(l.drop_first(), rest);
        assert(s[0] == l[0]);
        assert(s[0] != '\n');
        assert(s.drop_first() =~= l.drop_first() + seq!['\n'] + rest);
        let inner = split_lines(l.drop_first() + seq!['\n'] + rest);
        assert(inner == seq![l.drop_first()] + split_lines(rest));
        assert(inner[0] == l.drop_first());
        assert(split_lines(s) == seq![seq![s[0]] + inner[0]] + inner.drop_first());
        assert(seq![s[0]] + inner[0] =~= l);
        assert(inner.drop_first() =~= split_lines(rest));
        assert(split_lines(s) =~= seq![l] + split_lines(rest));
    }
}

/// A line without blanks at either end trims to itself.
pub proof fn lemma_trim_id(l: Seq<char>)
    requires
        l.len() > 0 ==> !is_blank(l[0]) && !is_blank(l[l.len() - 1]),
    ensures
        trim_blanks(l) == l,
{
}

/// Cleaning a rendered row list of non-blank, non-empty rows gives back
/// exactly the rows: the trailing empty line is dropped and nothing else
/// changes.
pub proof fn lemma_clean_of_rows(ls: Seq<Seq<char>>)
    requires
        forall|i: int| 0 <= i < ls.len() ==> (#[trigger] ls[i]).len() > 0,
        forall|i: int, j: int|
            0 <= i < ls.len() && 0 <= j < ls[i].len() ==> !is_blank(#[trigger] ls[i][j]),
    ensures
        clean_of(ls.push(Seq::<char>::empty())) == ls,
        clean_of(ls) == ls,
    decreases ls.len(),
{
    let pushed = ls.push(Seq::<char>::empty());
    assert(pushed.drop_last() =~= ls);
    assert(trim_blanks(Seq::<char>::empty()) =~= Seq::<char>::empty());
    if ls.len() == 0 {
        assert(clean_of(ls) =~= ls);
        assert(clean_of(pushed) =~= ls);
    } else {
        assert(forall|i: int| 0 <= i < ls.drop_last().len() ==> (#[trigger] ls.drop_last()[
        i]).len() > 0);
        assert(forall|i: int, j: int|
            0 <= i < ls.drop_last().len() && 0 <= j < ls.drop_last()[i].len() ==> !is_blank(
                #[trigger] ls.drop_last()[i][j],
            ));
        lemma_clean_of_rows(ls.drop_last());
        lemma_trim_id(ls.last());
        assert(clean_of(ls) =~= ls.drop_last().push(ls.last()));
        assert(ls.drop_last().push(ls.last()) =~= ls);
        assert(clean_of(pushed) == clean_of(ls));
    }
}

/// The rows of a rendered grid.
pub open spec fn grid_rows(w: int, cells: Seq<bool>, h: int) -> Seq<Seq<char>> {
    Seq::new(h as nat, |r: int| row_chars(w, cells, r))
}

/// The back-recursive renderer agrees with rendering the row list.
pub proof fn lemma_render_is_text_of(w: int, cells: Seq<bool>, h: int)
    requires
        0 <= h,
    ensures
        render_upto(w, cells, h) == text_of(grid_rows(w, cells, h)),
    decreases h,
{
    if h == 0 {
        assert(grid_rows(w, cells, 0) =~= Seq::<Seq<char>>::empty());
    } else {
        lemma_render_is_text_of(w, cells, h - 1);
        assert(grid_rows(w, cells, h) =~= grid_rows(w, cells, h - 1).push(
            row_chars(w, cells, h - 1),
        ));
        lemma_text_of_concat(grid_rows(w, cells, h - 1), seq![row_chars(w, cells, h - 1)]);
        assert(grid_rows(w, cells, h - 1) + seq![row_chars(w, cells, h - 1)] =~= grid_rows(
            w,
            cells,
            h,
        ));
        assert(seq![row_chars(w, cells, h - 1)].drop_first() =~= Seq::<Seq<char>>::empty());
        assert(text_of(Seq::<Seq<char>>::empty()) == Seq::<char>::empty());
        assert(text_of(seq![row_chars(w, cells, h - 1)]) == seq![row_chars(w, cells, h - 1)][0]
            + seq!['\n'] + text_of(seq![row_chars(w, cells, h - 1)].drop_first()));
        assert(text_of(seq![row_chars(w, cells, h - 1)]) =~= row_chars(w, cells, h - 1) + seq![
            '\n',
        ]);
        assert(render_upto(w, cells, h) =~= text_of(grid_rows(w, cells, h)));
    }
}

/// Text is canonical when it is exactly its own cleaned rows, rendered.
pub open spec fn canonical_text(s: Seq<char>) -> bool {
    &&& rows_well_formed(clean_lines(s))
    &&& s == text_of(clean_lines(s))
}

/// Rendering a grid yields canonical text whose cleaned rows are the
/// grid's rows: reading the text back recovers the grid, and writing a
/// parsed grid back yields the text it was read from.
pub proof fn lemma_grid_text_round_trip(w: int, cells: Seq<bool>, h: int)
    requires
        w > 0,
        h > 0,
        cells.len() == h * w,
    ensures
        clean_lines(render_upto(w, cells, h)) == grid_rows(w, cells, h),
        rows_well_formed(clean_lines(render_upto(w, cells, h))),
        canonical_text(render_upto(w, cells, h)),
        forall|r: int, c: int|
            0 <= r < h && 0 <= c < w ==> #[trigger] grid_rows(w, cells, h)[r][c] == (if cells[r
                * w + c] {
                '1'
            } else {
                '0'
            }),
{
    let rows = grid_rows(w, cells, h);
    assert forall|i: int, j: int|
        0 <= i < rows.len() && 0 <= j < rows[i].len() implies rows[i][j] != '\n' && !is_blank(
        #[trigger] rows[i][j]) && (rows[i][j] == '0' || rows[i][j] == '1') by {
        assert(rows[i] == row_chars(w, cells, i));
        assert(rows[i][j] == (if cells[i * w + j] {
            '1'
        } else {
            '0'
        }));
    }
    lemma_render_is_text_of(w, cells, h);
    lemma_split_text_of(rows);
    lemma_clean_of_rows(rows);
    assert(clean_lines(render_upto(w, cells, h)) == rows);
    assert(rows[0].len() == w);
    assert forall|i: int| 0 <= i < rows.len() implies #[trigger] rows[i].len() == rows[0].len()
        by {
        assert(rows[i] == row_chars(w, cells, i));
    }
}

/// Canonical text is reproduced exactly by a grid parsed from it: the
/// grid's rendering is the text itself.
pub proof fn lemma_parse_then_render(s: Seq<char>, w: int, cells: Seq<bool>, h: int)
    requires
        canonical_text(s),
        h == clean_lines(s).len(),
        w == clean_lines(s)[0].len(),
        cells.len() == h * w,
        forall|r: int, c: int|
            0 <= r < h && 0 <= c < w ==> cells[r * w + c] == (clean_lines(s)[r][c] == '1'),
    ensures
        render_upto(w, cells, h) == s,
{
    let ls = clean_lines(s);
    lemma_render_is_text_of(w, cells, h);
    assert forall|r: int| 0 <= r < h implies #[trigger] grid_rows(w, cells, h)[r] == ls[r] by {
        let row = row_chars(w, cells, r);
        assert forall|c: int| 0 <= c < w implies #[trigger] row[c] == ls[r][c] by {
            assert(cells[r * w + c] == (ls[r][c] == '1'));
            assert(ls[r][c] == '0' || ls[r][c] == '1');
        }
        assert(row =~= ls[r]);
    }
    assert(grid_rows(w, cells, h) =~= ls);
    assert(render_upto(w, cells, h) == text_of(ls));
}

} // verus!
