//! Console-oriented formatting helpers.

use vstd::prelude::*;
use crate::grid::{Grid, lemma_row_major};
use crate::textutil::usize_to_string;

verus! {

/// The characters of one marked row: a full block for a live cell, a
/// middle dot for a dead one.
pub open spec fn mark_row(w: int, cells: Seq<bool>, row: int) -> Seq<char> {
    Seq::new(w as nat, |j: int| if cells[row * w + j] { '\u{2588}' } else { '\u{00b7}' })
}

/// The first `r` marked rows, each closed by a newline.
pub open spec fn marks_upto(w: int, cells: Seq<bool>, r: int) -> Seq<char>
    decreases r,
{
    if r <= 0 {
        Seq::empty()
    } else {
        marks_upto(w, cells, r - 1) + mark_row(w, cells, r - 1) + seq!['\n']
    }
}

/// Formats solutions and grids for the console.
pub struct SolutionFormatter;

impl SolutionFormatter {
    /// One mark per cell, one line per row.
    pub fn format_grid_compact(grid: &Grid) -> (r: String)
        requires
            grid.wf(),
        ensures
            r@ == marks_upto(grid.width as int, grid.cells@, grid.height as int),
    {
        proof {
            reveal_strlit("\u{2588}");
            reveal_strlit("\u{00b7}");
            reveal_strlit("\n");
        }
        let w = grid.width;
        let h = grid.height;
        let mut out = String::new();
        let mut row: usize = 0;
        while row < h
            invariant
                row <= h,
                w == grid.width,
                h == grid.height,
                grid.wf(),
                out@ == marks_upto(w as int, grid.cells@, row as int),
                "\u{2588}"@ =~= seq!['\u{2588}'],
                "\u{00b7}"@ =~= seq!['\u{00b7}'],
                "\n"@ =~= seq!['\n'],
            decreases h - row,
        {
            let mut col: usize = 0;
            while col < w
                invariant
                    col <= w,
                    row < h,
                    w == grid.width,
                    h == grid.height,
                    grid.wf(),
                    out@ == marks_upto(w as int, grid.cells@, row as int) + mark_row(
                        w as int,
                        grid.cells@,
                        row as int,
                    ).take(col as int),
                    "\u{2588}"@ =~= seq!['\u{2588}'],
                    "\u{00b7}"@ =~= seq!['\u{00b7}'],
                    "\n"@ =~= seq!['\n'],
                decreases w - col,
            {
                proof {
                    lemma_row_major(w as int, h as int, row as int, col as int);
                }
                let idx = grid.index(row, col);
                if grid.cells[idx] {
                    out.append("\u{2588}");
                } else {
                    out.append("\u{00b7}");
                }
                proof {
                    let rc = mark_row(w as int, grid.cells@, row as int);
                    assert(rc.take(col as int).push(rc[col as int]) =~= rc.take(col as int + 1));
                    assert(out@ =~= marks_upto(w as int, grid.cells@, row as int) + rc.take(
                        col as int + 1,
                    ));
                }
                col += 1;
            }
            out.append("\n");
            proof {
                let rc = mark_row(w as int, grid.cells@, row as int);
                assert(rc.take(w as int) =~= rc);
                assert(out@ =~= marks_upto(w as int, grid.cells@, row as int + 1));
                assert(marks_upto(w as int, grid.cells@, row as int + 1).take(0) =~= Seq::<
                    char,
                >::empty());
            }
            row += 1;
        }
        out
    }

    /// The same marks, doubled for squarer cells, with row and column
    /// indices along the edges.
    pub fn format_grid_with_coords(grid: &Grid) -> (r: String)
        requires
            grid.wf(),
        ensures
            grid.width > 0 || grid.height > 0 ==> r@.len() > 0,
    {
        proof {
            reveal_strlit("   ");
            reveal_strlit(" ");
            reveal_strlit("\n");
            reveal_strlit("\u{2588}\u{2588}");
            reveal_strlit("\u{00b7}\u{00b7}");
        }
        let w = grid.width;
        let h = grid.height;
        let mut out: String = "   ".to_owned();
        let mut x: usize = 0;
        while x < w
            invariant
                x <= w,
                w == grid.width,
                h == grid.height,
                grid.wf(),
                out@.len() >= 3,
            decreases w - x,
        {
            out.append(" ");
            out.append(usize_to_string(x % 10).as_str());
            out.append(" ");
            x += 1;
        }
        out.append("\n");
        let mut y: usize = 0;
        while y < h
            invariant
                y <= h,
                w == grid.width,
                h == grid.height,
                grid.wf(),
                out@.len() >= 4,
                "\u{2588}\u{2588}"@ =~= seq!['\u{2588}', '\u{2588}'],
                "\u{00b7}\u{00b7}"@ =~= seq!['\u{00b7}', '\u{00b7}'],
            decreases h - y,
        {
            out.append(usize_to_string(y).as_str());
            out.append(" ");
            let mut x2: usize = 0;
            while x2 < w
                invariant
                    x2 <= w,
                    y < h,
                    w == grid.width,
                    h == grid.height,
                    grid.wf(),
                    out@.len() >= 4,
                    "\u{2588}\u{2588}"@ =~= seq!['\u{2588}', '\u{2588}'],
                    "\u{00b7}\u{00b7}"@ =~= seq!['\u{00b7}', '\u{00b7}'],
                decreases w - x2,
            {
                if grid.get(y, x2) {
                    out.append("\u{2588}\u{2588}");
                } else {
                    out.append("\u{00b7}\u{00b7}");
                }
                x2 += 1;
            }
            out.append("\n");
            y += 1;
        }
        out
    }
}

/// Progress bookkeeping for a long enumeration; the caller decides how to
/// show it.
#[derive(Debug)]
pub struct ProgressIndicator {
    pub total: usize,
    pub current: usize,
}

impl ProgressIndicator {
    /// A fresh indicator over `total` units of work.
    pub fn new(total: usize) -> (r: ProgressIndicator)
        ensures
            r.total == total,
            r.current == 0,
    {
        ProgressIndicator { total, current: 0 }
    }

    /// Records the progress made so far.
    pub fn update(&mut self, current: usize)
        ensures
            final(self).current == current,
            final(self).total == old(self).total,
    {
        self.current = current;
    }

    /// The progress as text: the current count, the total, and the
    /// percentage done.
    pub fn report(&self) -> (r: String)
        ensures
            r@.len() > 0,
    {
        proof {
            reveal_strlit("progress: ");
            reveal_strlit(" of ");
            reveal_strlit(" (");
            reveal_strlit("%)");
        }
        let mut s: String = "progress: ".to_owned();
        s.append(usize_to_string(self.current).as_str());
        s.append(" of ");
        s.append(usize_to_string(self.total).as_str());
        s.append(" (");
        let percent: usize = if self.total > 0 && self.current <= self.total {
            proof {
                assert((self.current as int) * 100 / (self.total as int) <= 100)
                    by (nonlinear_arith)
                    requires 0 <= self.current <= self.total, self.total > 0;
            }
            (((self.current as u128) * 100) / (self.total as u128)) as usize
        } else {
            0
        };
        s.append(usize_to_string(percent).as_str());
        s.append("%)");
        s
    }
}

/// Wraps text in ANSI color escape sequences. Whether the terminal
/// supports color is the caller's finding, handed in as a plain flag.
pub struct ColorOutput;

impl ColorOutput {
    /// With color support, the text surrounded by the color's escape
    /// sequence and the reset sequence; without, the text unchanged.
    pub fn colored(text: &str, color: Color, color_support: bool) -> (r: String)
        ensures
            color_support ==> r@ == seq!['\u{1b}', '['] + color.code_chars() + seq!['m'] + text@
                + seq!['\u{1b}', '[', '0', 'm'],
            !color_support ==> r@ == text@,
    {
        if !color_support {
            return text.to_owned();
        }
        proof {
            reveal_strlit("\u{1b}[");
            reveal_strlit("m");
            reveal_strlit("\u{1b}[0m");
        }
        let mut s: String = "\u{1b}[".to_owned();
        s.append(color.code_str());
        s.append("m");
        s.append(text);
        s.append("\u{1b}[0m");
        proof {
            assert(s@ =~= seq!['\u{1b}', '['] + color.code_chars() + seq!['m'] + text@ + seq![
                '\u{1b}',
                '[',
                '0',
                'm',
            ]);
        }
        s
    }

    /// Green, for a success message.
    pub fn success(text: &str, color_support: bool) -> (r: String)
        ensures
            color_support ==> r@ == seq!['\u{1b}', '['] + Color::Green.code_chars() + seq!['m']
                + text@ + seq!['\u{1b}', '[', '0', 'm'],
            !color_support ==> r@ == text@,
    {
        Self::colored(text, Color::Green, color_support)
    }

    /// Red, for an error message.
    pub fn error(text: &str, color_support: bool) -> (r: String)
        ensures
            color_support ==> r@ == seq!['\u{1b}', '['] + Color::Red.code_chars() + seq!['m']
                + text@ + seq!['\u{1b}', '[', '0', 'm'],
            !color_support ==> r@ == text@,
    {
        Self::colored(text, Color::Red, color_support)
    }

    /// Yellow, for a warning.
    pub fn warning(text: &str, color_support: bool) -> (r: String)
        ensures
            color_support ==> r@ == seq!['\u{1b}', '['] + Color::Yellow.code_chars() + seq!['m']
                + text@ + seq!['\u{1b}', '[', '0', 'm'],
            !color_support ==> r@ == text@,
    {
        Self::colored(text, Color::Yellow, color_support)
    }

    /// Blue, for an informational message.
    pub fn info(text: &str, color_support: bool) -> (r: String)
        ensures
            color_support ==> r@ == seq!['\u{1b}', '['] + Color::Blue.code_chars() + seq!['m']
                + text@ + seq!['\u{1b}', '[', '0', 'm'],
            !color_support ==> r@ == text@,
    {
        Self::colored(text, Color::Blue, color_support)
    }
}

/// The ANSI foreground colors the formatter knows.
#[derive(Debug, Clone, Copy, PartialEq, Eq, Structural)]
pub enum Color {
    Red,
    Green,
    Yellow,
    Blue,
    Magenta,
    Cyan,
}

impl Color {
    /// The ANSI code digits of this color.
    pub open spec fn code_chars(self) -> Seq<char> {
        match self {
            Color::Red => seq!['3', '1'],
            Color::Green => seq!['3', '2'],
            Color::Yellow => seq!['3', '3'],
            Color::Blue => seq!['3', '4'],
            Color::Magenta => seq!['3', '5'],
            Color::Cyan => seq!['3', '6'],
        }
    }

    /// The numeric ANSI foreground code.
    pub fn code(self) -> (r: u8)
        ensures
            r == match self {
                Color::Red => 31u8,
                Color::Green => 32u8,
                Color::Yellow => 33u8,
                Color::Blue => 34u8,
                Color::Magenta => 35u8,
                Color::Cyan => 36u8,
            },
    {
        match self {
            Color::Red => 31,
            Color::Green => 32,
            Color::Yellow => 33,
            Color::Blue => 34,
            Color::Magenta => 35,
            Color::Cyan => 36,
        }
    }

    /// The ANSI code as text.
    fn code_str(self) -> (r: &'static str)
        ensures
            r@ == self.code_chars(),
    {
        proof {
            reveal_strlit("31");
            reveal_strlit("32");
            reveal_strlit("33");
            reveal_strlit("34");
            reveal_strlit("35");
            reveal_strlit("36");
        }
        match self {
            Color::Red => "31",
            Color::Green => "32",
            Color::Yellow => "33",
            Color::Blue => "34",
            Color::Magenta => "35",
            Color::Cyan => "36",
        }
    }
}

} // verus!
