use vstd::prelude::*;
use vstd::string::*;
use crate::element::Element;
use crate::matrix::Matrix;

verus! {

/// Index of the row that stands for the collapsed rows, when there are more
/// rows than this plus one; the rows after it, but the last, are not shown.
pub const MARKER_ROW: usize = 15;

/// Index of the column that stands for the collapsed columns, when there are
/// more columns than this; the columns after it, but the last, are not
/// shown.
pub const MARKER_COL: usize = 10;

/// `n` spaces.
pub open spec fn spaces(n: int) -> Seq<char> {
    Seq::new(n as nat, |_i: int| ' ')
}

/// `s` right-aligned in a field four characters wide.
pub open spec fn pad4(s: Seq<char>) -> Seq<char> {
    if s.len() < 4 {
        spaces(4 - s.len()) + s
    } else {
        s
    }
}

/// What stands in place of a value in a collapsed row or column.
pub open spec fn marker() -> Seq<char> {
    seq![' ', '.', '.', '.', ' ']
}

/// Whether row `row` of a matrix with `nrow` rows gets a line of its own.
pub open spec fn row_shown(nrow: int, row: int) -> bool {
    !(nrow > MARKER_ROW + 1 && row > MARKER_ROW && row != nrow - 1)
}

/// The opening delimiter of a line: a round bracket for a single row, else
/// the upper, middle or lower piece of a tall parenthesis.
pub open spec fn left_bracket(nrow: int, row: int) -> Seq<char> {
    if nrow == 1 {
        seq!['\u{27EE}', ' ']
    } else if row == 0 {
        seq!['\u{239B}', ' ']
    } else if row == nrow - 1 {
        seq!['\u{239D}', ' ']
    } else {
        seq!['\u{239C}', ' ']
    }
}

/// The closing delimiter of a line, with the line break.
pub open spec fn right_bracket(nrow: int, row: int) -> Seq<char> {
    if nrow == 1 {
        seq![' ', '\u{27EF}', '\n']
    } else if row == 0 {
        seq![' ', '\u{239E}', '\n']
    } else if row == nrow - 1 {
        seq![' ', '\u{23A0}', '\n']
    } else {
        seq![' ', '\u{239F}', '\n']
    }
}

fn spaces_string(n: usize) -> (r: String)
    ensures
        r@ == spaces(n as int),
{
    let mut s = String::new();
    let mut k: usize = 0;
    while k < n
        invariant
            k <= n,
            s@ == spaces(k as int),
        decreases n - k,
    {
        proof {
            reveal_strlit(" ");
        }
        s.append(" ");
        assert(s@ =~= spaces(k + 1));
        k = k + 1;
    }
    s
}

fn pad4_string(s: String) -> (r: String)
    ensures
        r@ == pad4(s@),
{
    let len = s.as_str().unicode_len();
    if len < 4 {
        let mut p = spaces_string(4 - len);
        p.append(s.as_str());
        p
    } else {
        s
    }
}

fn left_bracket_str(nrow: usize, row: usize) -> (r: &'static str)
    requires
        row < nrow,
    ensures
        r@ == left_bracket(nrow as int, row as int),
{
    if nrow == 1 {
        proof {
            reveal_strlit("\u{27EE} ");
        }
        "\u{27EE} "
    } else if row == 0 {
        proof {
            reveal_strlit("\u{239B} ");
        }
        "\u{239B} "
    } else if row == nrow - 1 {
        proof {
            reveal_strlit("\u{239D} ");
        }
        "\u{239D} "
    } else {
        proof {
            reveal_strlit("\u{239C} ");
        }
        "\u{239C} "
    }
}

fn right_bracket_str(nrow: usize, row: usize) -> (r: &'static str)
    requires
        row < nrow,
    ensures
        r@ == right_bracket(nrow as int, row as int),
{
    if nrow == 1 {
        proof {
            reveal_strlit(" \u{27EF}\n");
        }
        " \u{27EF}\n"
    } else if row == 0 {
        proof {
            reveal_strlit(" \u{239E}\n");
        }
        " \u{239E}\n"
    } else if row == nrow - 1 {
        proof {
            reveal_strlit(" \u{23A0}\n");
        }
        " \u{23A0}\n"
    } else {
        proof {
            reveal_strlit(" \u{239F}\n");
        }
        " \u{239F}\n"
    }
}

impl<T: Element> Matrix<T> {
    /// The text for cell (`row`, `col`): its raw value right-aligned in four
    /// characters and a space; the marker in the collapsed row and in the
    /// first collapsed column; nothing in the other collapsed columns.
    pub open spec fn item_text(&self, row: int, col: int) -> Seq<char> {
        if self.ncol > MARKER_COL && col >= MARKER_COL && col != self.ncol - 1 {
            if col == MARKER_COL {
                marker()
            } else {
                Seq::empty()
            }
        } else if self.nrow > MARKER_ROW + 1 && row == MARKER_ROW {
            marker()
        } else {
            pad4(T::spec_text(self.cell(row, col))) + seq![' ']
        }
    }

    /// The texts of the first `k` cells of row `row`.
    pub open spec fn row_items(&self, row: int, k: int) -> Seq<char>
        decreases k,
    {
        if k <= 0 {
            Seq::empty()
        } else {
            self.row_items(row, k - 1) + self.item_text(row, k - 1)
        }
    }

    /// What comes before the delimiter of line `row`: nothing without a
    /// factor; with one, "<factor> * " on the first line and as many spaces
    /// on the others.
    pub open spec fn lead(&self, row: int) -> Seq<char> {
        match self.const_mult {
            None => Seq::empty(),
            Some(f) => if row == 0 {
                T::spec_text(f) + seq![' ', '*', ' ']
            } else {
                spaces(T::spec_text(f).len() as int + 3)
            },
        }
    }

    /// The full line of row `row`, line break included.
    pub open spec fn line(&self, row: int) -> Seq<char> {
        self.lead(row) + left_bracket(self.nrow as int, row) + self.row_items(row, self.ncol as int)
            + right_bracket(self.nrow as int, row)
    }

    /// The lines of the first `k` rows, leaving out the collapsed ones.
    pub open spec fn lines(&self, k: int) -> Seq<char>
        decreases k,
    {
        if k <= 0 {
            Seq::empty()
        } else {
            self.lines(k - 1) + if row_shown(self.nrow as int, k - 1) {
                self.line(k - 1)
            } else {
                Seq::empty()
            }
        }
    }

    /// The text of the whole matrix, one line per shown row.
    pub open spec fn rendered(&self) -> Seq<char> {
        self.lines(self.nrow as int)
    }

    fn item_string(&self, row: usize, col: usize) -> (r: String)
        requires
            self.wf(),
            row < self.nrow,
            col < self.ncol,
        ensures
            r@ == self.item_text(row as int, col as int),
    {
        if self.ncol > MARKER_COL && col >= MARKER_COL && col != self.ncol - 1 {
            if col == MARKER_COL {
                proof {
                    reveal_strlit(" ... ");
                }
                String::from_str(" ... ")
            } else {
                String::new()
            }
        } else if self.nrow > MARKER_ROW + 1 && row == MARKER_ROW {
            proof {
                reveal_strlit(" ... ");
            }
            String::from_str(" ... ")
        } else {
            let mut s = pad4_string(self.get(row, col).text());
            proof {
                reveal_strlit(" ");
            }
            s.append(" ");
            s
        }
    }

    fn lead_string(&self, row: usize) -> (r: String)
        ensures
            r@ == self.lead(row as int),
    {
        match self.const_mult {
            None => String::new(),
            Some(f) => {
                let t = f.text();
                if row == 0 {
                    let mut s = t;
                    proof {
                        reveal_strlit(" * ");
                    }
                    s.append(" * ");
                    s
                } else {
                    let mut s = spaces_string(t.as_str().unicode_len());
                    proof {
                        reveal_strlit("   ");
                    }
                    s.append("   ");
                    assert(s@ =~= spaces(t@.len() as int + 3));
                    s
                }
            },
        }
    }

    fn line_string(&self, row: usize) -> (r: String)
        requires
            self.wf(),
            row < self.nrow,
        ensures
            r@ == self.line(row as int),
    {
        let mut s = self.lead_string(row);
        s.append(left_bracket_str(self.nrow, row));
        let ghost head = s@;
        let mut col: usize = 0;
        while col < self.ncol
            invariant
                self.wf(),
                row < self.nrow,
                col <= self.ncol,
                s@ == head + self.row_items(row as int, col as int),
            decreases self.ncol - col,
        {
            let item = self.item_string(row, col);
            s.append(item.as_str());
            assert(s@ =~= head + self.row_items(row as int, col + 1));
            col = col + 1;
        }
        s.append(right_bracket_str(self.nrow, row));
        assert(s@ =~= self.line(row as int));
        s
    }

    /// The matrix as text: one line per row between tall parentheses, each
    /// raw value right-aligned in four characters. With more than sixteen
    /// rows, row fifteen (from zero) shows markers and the rows after it,
    /// but the last, are left out; with more than ten columns, column ten
    /// shows a marker and the columns after it, but the last, are left out.
    /// A factor is written before the first line as "<factor> * ".
    pub fn render(&self) -> (r: String)
        requires
            self.wf(),
        ensures
            r@ == self.rendered(),
    {
        let mut out = String::new();
        let mut row: usize = 0;
        while row < self.nrow
            invariant
                self.wf(),
                row <= self.nrow,
                out@ == self.lines(row as int),
            decreases self.nrow - row,
        {
            if !(self.nrow > MARKER_ROW + 1 && row > MARKER_ROW && row != self.nrow - 1) {
                let line = self.line_string(row);
                out.append(line.as_str());
            }
            assert(out@ =~= self.lines(row + 1));
            row = row + 1;
        }
        out
    }
}

} // verus!
