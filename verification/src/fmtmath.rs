//! Matrix and determinant formatters.
//!
//! Both read the debug representation of a sequence of row sequences as a
//! grid of cell strings, pad every cell to its column's width
//! (right-aligned), put two spaces between columns and two spaces between
//! the content and the enclosing glyphs, and end every row with a
//! newline.  The matrix formatter wraps a single row in `⦅ ⦆`, the first
//! and last of several rows in `⎛ ⎞` and `⎝ ⎠`, and middle rows in
//! `│ │`; text that does not parse as a grid is returned unchanged.  The
//! determinant formatter wraps every row in `│ │` and answers a fixed
//! fallback sentence when the text does not parse as a grid, the grid is
//! not square, or it has fewer than two rows.
use crate::fmtcommon::{
    grid_widths, parse_grid, push_pad_left, spec_col_width, spec_max_cols, spec_pad_left,
    spec_parse_grid,
};
use crate::strutil::push_char;
use vstd::prelude::*;
use vstd::string::*;

verus! {

/// Every row of a grid is at most as long as the column count.
pub proof fn lemma_max_cols_ge(g: Seq<Seq<Seq<char>>>, i: int)
    requires
        0 <= i < g.len(),
    ensures
        g[i].len() <= spec_max_cols(g),
    decreases g.len(),
{
    if i > 0 {
        lemma_max_cols_ge(g.drop_first(), i - 1);
    }
}

/// The cells of `row` from index `j` on, each padded to its column
/// width, joined by two spaces.
pub open spec fn spec_row_text(g: Seq<Seq<Seq<char>>>, row: Seq<Seq<char>>, j: int) -> Seq<char>
    decreases row.len() - j,
{
    if j < 0 || j >= row.len() {
        Seq::empty()
    } else if j == row.len() - 1 {
        spec_pad_left(row[j], spec_col_width(g, j))
    } else {
        spec_pad_left(row[j], spec_col_width(g, j)) + seq![' ', ' '] + spec_row_text(
            g,
            row,
            j + 1,
        )
    }
}

/// One rendered row: glyph, two spaces, the padded cells, two spaces,
/// glyph, newline.
pub open spec fn spec_row_line(
    g: Seq<Seq<Seq<char>>>,
    row: Seq<Seq<char>>,
    l: char,
    r: char,
) -> Seq<char> {
    seq![l, ' ', ' '] + spec_row_text(g, row, 0) + seq![' ', ' ', r, '\n']
}

/// The left glyph of matrix row `i` of `n`.
pub open spec fn spec_matrix_left(i: int, n: int) -> char {
    if n == 1 {
        '⦅'
    } else if i == 0 {
        '⎛'
    } else if i == n - 1 {
        '⎝'
    } else {
        '│'
    }
}

/// The right glyph of matrix row `i` of `n`.
pub open spec fn spec_matrix_right(i: int, n: int) -> char {
    if n == 1 {
        '⦆'
    } else if i == 0 {
        '⎞'
    } else if i == n - 1 {
        '⎠'
    } else {
        '│'
    }
}

/// The rendered matrix rows from `i` on.
pub open spec fn spec_matrix_rows(g: Seq<Seq<Seq<char>>>, i: int) -> Seq<char>
    decreases g.len() - i,
{
    if i < 0 || i >= g.len() {
        Seq::empty()
    } else {
        spec_row_line(
            g,
            g[i],
            spec_matrix_left(i, g.len() as int),
            spec_matrix_right(i, g.len() as int),
        ) + spec_matrix_rows(g, i + 1)
    }
}

/// What the matrix formatter returns: the rendered rows, or the text
/// unchanged when it does not parse as a non-empty grid.
pub open spec fn spec_format_matrix(s: Seq<char>) -> Seq<char> {
    match spec_parse_grid(s) {
        Some(g) => if g.len() == 0 {
            s
        } else {
            spec_matrix_rows(g, 0)
        },
        None => s,
    }
}

/// The rendered determinant rows from `i` on: every row between `│ │`.
pub open spec fn spec_det_rows(g: Seq<Seq<Seq<char>>>, i: int) -> Seq<char>
    decreases g.len() - i,
{
    if i < 0 || i >= g.len() {
        Seq::empty()
    } else {
        spec_row_line(g, g[i], '│', '│') + spec_det_rows(g, i + 1)
    }
}

/// A grid with at least two rows, each as long as the row count.
pub open spec fn spec_is_square(g: Seq<Seq<Seq<char>>>) -> bool {
    g.len() >= 2 && forall|i: int| 0 <= i < g.len() ==> (#[trigger] g[i]).len() == g.len()
}

/// What the determinant formatter returns: the rendered rows for a
/// square grid of at least two rows, the fixed fallback sentence
/// otherwise.
pub open spec fn spec_format_determinant(s: Seq<char>) -> Seq<char> {
    match spec_parse_grid(s) {
        Some(g) => if spec_is_square(g) {
            spec_det_rows(g, 0)
        } else {
            "Determinant undefined: requires a square matrix with at least 2 rows"@
        },
        None => "Determinant undefined: requires a square matrix with at least 2 rows"@,
    }
}

/// Appends one rendered grid row.
fn push_row_line(
    out: &mut String,
    g: &Vec<Vec<String>>,
    widths: &Vec<usize>,
    i: usize,
    l: char,
    r: char,
)
    requires
        i < g.len(),
        widths.len() == spec_max_cols(g.deep_view()),
        forall|j: int|
            0 <= j < widths.len() ==> widths[j] == spec_col_width(g.deep_view(), j),
    ensures
        final(out)@ == old(out)@ + spec_row_line(g.deep_view(), g.deep_view()[i as int], l, r),
{
    let ghost gv = g.deep_view();
    let ghost row = gv[i as int];
    proof {
        lemma_max_cols_ge(gv, i as int);
        assert(gv[i as int].len() == g[i as int]@.len());
    }
    push_char(out, l);
    push_char(out, ' ');
    push_char(out, ' ');
    let ghost start = out@;
    let m = g[i].len();
    let mut j: usize = 0;
    while j < m
        invariant
            0 <= j <= m,
            m == row.len(),
            row.len() <= widths.len(),
            i < g.len(),
            gv == g.deep_view(),
            row == gv[i as int],
            widths.len() == spec_max_cols(gv),
            forall|jj: int|
                0 <= jj < widths.len() ==> widths[jj] == spec_col_width(gv, jj),
            out@ + spec_row_text(gv, row, j as int) == start + spec_row_text(gv, row, 0),
        decreases m - j,
    {
        proof {
            assert(g.deep_view()[i as int][j as int] == g[i as int]@[j as int]@);
        }
        let ghost pre = out@;
        push_pad_left(out, g[i][j].as_str(), widths[j]);
        if j + 1 < m {
            push_char(out, ' ');
            push_char(out, ' ');
            proof {
                assert(out@ =~= pre + (spec_pad_left(row[j as int], spec_col_width(gv, j as int))
                    + seq![' ', ' ']));
                assert(out@ + spec_row_text(gv, row, j + 1) =~= pre + spec_row_text(
                    gv,
                    row,
                    j as int,
                ));
            }
        } else {
            proof {
                assert(out@ + spec_row_text(gv, row, j + 1) =~= pre + spec_row_text(
                    gv,
                    row,
                    j as int,
                ));
            }
        }
        j = j + 1;
    }
    push_char(out, ' ');
    push_char(out, ' ');
    push_char(out, r);
    push_char(out, '\n');
    proof {
        assert(spec_row_text(gv, row, m as int) =~= Seq::<char>::empty());
        assert(start + spec_row_text(gv, row, 0) + seq![' ', ' ', r, '\n'] =~= out@);
        assert(out@ =~= old(out)@ + spec_row_line(gv, row, l, r));
    }
}

/// Pretty-prints a two-dimensional sequence as a bracketed matrix; text
/// that does not parse as a non-empty grid is returned unchanged.
pub fn format_matrix(s: &str) -> (r: String)
    ensures
        r@ == spec_format_matrix(s@),
{
    let grid_opt = parse_grid(s);
    match grid_opt {
        None => String::from_str(s),
        Some(g) => {
            let n = g.len();
            if n == 0 {
                String::from_str(s)
            } else {
                let ghost gv = g.deep_view();
                let widths = grid_widths(&g);
                let mut out = String::new();
                let mut i: usize = 0;
                while i < n
                    invariant
                        0 <= i <= n,
                        n == g.len(),
                        gv == g.deep_view(),
                        n == gv.len(),
                        widths.len() == spec_max_cols(gv),
                        forall|j: int|
                            0 <= j < widths.len() ==> widths[j] == spec_col_width(gv, j),
                        out@ + spec_matrix_rows(gv, i as int) == spec_matrix_rows(gv, 0),
                    decreases n - i,
                {
                    let l: char = if n == 1 {
                        '⦅'
                    } else if i == 0 {
                        '⎛'
                    } else if i == n - 1 {
                        '⎝'
                    } else {
                        '│'
                    };
                    let r: char = if n == 1 {
                        '⦆'
                    } else if i == 0 {
                        '⎞'
                    } else if i == n - 1 {
                        '⎠'
                    } else {
                        '│'
                    };
                    push_row_line(&mut out, &g, &widths, i, l, r);
                    i = i + 1;
                }
                proof {
                    assert(spec_matrix_rows(gv, n as int) =~= Seq::<char>::empty());
                    assert(out@ =~= spec_matrix_rows(gv, 0));
                }
                out
            }
        },
    }
}

/// Pretty-prints a square two-dimensional sequence between vertical bars;
/// anything that is not a square grid of at least two rows gives a fixed
/// fallback sentence instead.
pub fn format_determinant(s: &str) -> (r: String)
    ensures
        r@ == spec_format_determinant(s@),
{
    let grid_opt = parse_grid(s);
    match grid_opt {
        None => String::from_str(
            "Determinant undefined: requires a square matrix with at least 2 rows",
        ),
        Some(g) => {
            let ghost gv = g.deep_view();
            let n = g.len();
            let mut square = n >= 2;
            let mut i: usize = 0;
            while i < n
                invariant
                    0 <= i <= n,
                    n == g.len(),
                    gv == g.deep_view(),
                    n == gv.len(),
                    square == (n >= 2 && forall|j: int|
                        0 <= j < i ==> (#[trigger] gv[j]).len() == gv.len()),
                decreases n - i,
            {
                proof {
                    assert(gv[i as int].len() == g[i as int]@.len());
                }
                if g[i].len() != n {
                    square = false;
                }
                i = i + 1;
            }
            if !square {
                String::from_str(
                    "Determinant undefined: requires a square matrix with at least 2 rows",
                )
            } else {
                let widths = grid_widths(&g);
                let mut out = String::new();
                let mut k: usize = 0;
                while k < n
                    invariant
                        0 <= k <= n,
                        n == g.len(),
                        gv == g.deep_view(),
                        n == gv.len(),
                        widths.len() == spec_max_cols(gv),
                        forall|j: int|
                            0 <= j < widths.len() ==> widths[j] == spec_col_width(gv, j),
                        out@ + spec_det_rows(gv, k as int) == spec_det_rows(gv, 0),
                    decreases n - k,
                {
                    push_row_line(&mut out, &g, &widths, k, '│', '│');
                    k = k + 1;
                }
                proof {
                    assert(spec_det_rows(gv, n as int) =~= Seq::<char>::empty());
                    assert(out@ =~= spec_det_rows(gv, 0));
                }
                out
            }
        },
    }
}

} // verus!
