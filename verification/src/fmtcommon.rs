//! Quote-aware structural scanning shared by the container, matrix,
//! determinant and table formatters.
//!
//! The debug representation of a nested container is bracketed text whose
//! string elements are double-quoted; a bracket or comma inside a quoted
//! string is ordinary text, not structure.  The scanner tracks a small
//! state: the current bracket depth, whether the scan stands inside a
//! quoted string, and whether the previous character was an unconsumed
//! backslash escape.
use crate::strutil::{
    push_char, spec_spaces, spec_trim, substr, trim_str, push_spaces,
};
use vstd::prelude::*;
use vstd::string::*;

verus! {

/// State of a structural scan.
pub struct ScanState {
    pub depth: nat,
    pub inq: bool,
    pub esc: bool,
}

pub open spec fn scan_init() -> ScanState {
    ScanState { depth: 0, inq: false, esc: false }
}

pub open spec fn spec_is_opener(c: char) -> bool {
    c == '[' || c == '{' || c == '('
}

pub open spec fn spec_is_closer(c: char) -> bool {
    c == ']' || c == '}' || c == ')'
}

/// One step of the scan counting every bracket kind; the depth never goes
/// below zero, so stray closers on malformed input are ignored.
pub open spec fn spec_step_all(st: ScanState, c: char) -> ScanState {
    if st.esc {
        ScanState { esc: false, ..st }
    } else if st.inq {
        if c == '\\' {
            ScanState { esc: true, ..st }
        } else if c == '"' {
            ScanState { inq: false, ..st }
        } else {
            st
        }
    } else if c == '"' {
        ScanState { inq: true, ..st }
    } else if spec_is_opener(c) {
        ScanState { depth: st.depth + 1, ..st }
    } else if spec_is_closer(c) {
        ScanState { depth: if st.depth > 0 {
            (st.depth - 1) as nat
        } else {
            0
        }, ..st }
    } else {
        st
    }
}

/// One step of the scan counting only square brackets.
pub open spec fn spec_step_sq(st: ScanState, c: char) -> ScanState {
    if st.esc {
        ScanState { esc: false, ..st }
    } else if st.inq {
        if c == '\\' {
            ScanState { esc: true, ..st }
        } else if c == '"' {
            ScanState { inq: false, ..st }
        } else {
            st
        }
    } else if c == '"' {
        ScanState { inq: true, ..st }
    } else if c == '[' {
        ScanState { depth: st.depth + 1, ..st }
    } else if c == ']' {
        ScanState { depth: if st.depth > 0 {
            (st.depth - 1) as nat
        } else {
            0
        }, ..st }
    } else {
        st
    }
}

/// Whether the scan state lets a comma at this point separate top-level
/// elements.
pub open spec fn spec_at_top(st: ScanState) -> bool {
    st.depth == 0 && !st.inq && !st.esc
}

/// Index of the first top-level occurrence of `needle` at or after `i`,
/// scanning with state `st`; the length of `s` when there is none.
pub open spec fn spec_first_top_from(s: Seq<char>, i: int, st: ScanState, needle: char) -> int
    decreases s.len() - i,
{
    if i >= s.len() {
        s.len() as int
    } else if spec_at_top(st) && s[i] == needle {
        i
    } else {
        spec_first_top_from(s, i + 1, spec_step_all(st, s[i]), needle)
    }
}

pub open spec fn spec_first_top(s: Seq<char>, needle: char) -> int {
    spec_first_top_from(s, 0, scan_init(), needle)
}

/// `s` split at its top-level commas; the separators are dropped and a
/// string without one is returned whole.
pub open spec fn spec_split_top(s: Seq<char>) -> Seq<Seq<char>>
    decreases s.len(),
{
    let k = spec_first_top(s, ',');
    if 0 <= k && k < s.len() {
        seq![s.subrange(0, k)] + spec_split_top(s.subrange(k + 1, s.len() as int))
    } else {
        seq![s]
    }
}

/// The top-level split with every piece trimmed.
pub open spec fn spec_split_top_trim(s: Seq<char>) -> Seq<Seq<char>> {
    spec_split_top(s).map_values(|e: Seq<char>| spec_trim(e))
}

/// The greatest square-bracket nesting depth reached anywhere in the scan
/// of `s` from `i` with state `st`.
pub open spec fn spec_max_sq_from(s: Seq<char>, i: int, st: ScanState) -> nat
    decreases s.len() - i,
{
    if i >= s.len() {
        st.depth
    } else {
        let rest = spec_max_sq_from(s, i + 1, spec_step_sq(st, s[i]));
        if st.depth >= rest {
            st.depth
        } else {
            rest
        }
    }
}

/// The nesting depth of a debug representation: the greatest square
/// bracket depth reached outside quoted strings.
pub open spec fn spec_nesting_depth(s: Seq<char>) -> nat {
    spec_max_sq_from(s, 0, scan_init())
}

/// A trimmed piece with one surrounding pair of double quotes removed,
/// when it has one.
pub open spec fn spec_strip_quotes(s: Seq<char>) -> Seq<char> {
    let t = spec_trim(s);
    if t.len() >= 2 && t[0] == '"' && t[t.len() - 1] == '"' {
        t.subrange(1, t.len() - 1)
    } else {
        t
    }
}

/// The cells of one already-trimmed grid row `[c1, c2, ...]`, or `None`
/// when the row is not bracketed.
pub open spec fn spec_row_cells(row: Seq<char>) -> Option<Seq<Seq<char>>> {
    if row.len() >= 2 && row[0] == '[' && row[row.len() - 1] == ']' {
        Some(spec_split_top_trim(row.subrange(1, row.len() - 1)))
    } else {
        None
    }
}

/// A debug representation `[[a, b], [c, d]]` read as a grid of trimmed
/// cell strings; `None` when the text is not a bracketed list of
/// bracketed rows.
pub open spec fn spec_parse_grid(s: Seq<char>) -> Option<Seq<Seq<Seq<char>>>> {
    let t = spec_trim(s);
    if t.len() >= 2 && t[0] == '[' && t[t.len() - 1] == ']' {
        let rows = spec_split_top_trim(t.subrange(1, t.len() - 1));
        if forall|i: int| 0 <= i < rows.len() ==> spec_row_cells(#[trigger] rows[i]) is Some {
            Some(
                rows.map_values(
                    |r: Seq<char>|
                        match spec_row_cells(r) {
                            Some(cs) => cs,
                            None => Seq::<Seq<char>>::empty(),
                        },
                ),
            )
        } else {
            None
        }
    } else {
        None
    }
}

/// The length of cell `j` of a row, or zero when the row is shorter.
pub open spec fn spec_cell_len(row: Seq<Seq<char>>, j: int) -> nat {
    if 0 <= j < row.len() {
        row[j].len()
    } else {
        0
    }
}

/// Width of column `j`: the longest cell in that column over all rows.
pub open spec fn spec_col_width(g: Seq<Seq<Seq<char>>>, j: int) -> nat
    decreases g.len(),
{
    if g.len() == 0 {
        0
    } else {
        let rest = spec_col_width(g.drop_first(), j);
        if spec_cell_len(g[0], j) >= rest {
            spec_cell_len(g[0], j)
        } else {
            rest
        }
    }
}

/// The number of columns of a grid: the length of its longest row.
pub open spec fn spec_max_cols(g: Seq<Seq<Seq<char>>>) -> nat
    decreases g.len(),
{
    if g.len() == 0 {
        0
    } else {
        let rest = spec_max_cols(g.drop_first());
        if g[0].len() >= rest {
            g[0].len()
        } else {
            rest
        }
    }
}

/// A cell padded on the left with spaces up to width `w` (right-aligned).
pub open spec fn spec_pad_left(cell: Seq<char>, w: nat) -> Seq<char> {
    if cell.len() >= w {
        cell
    } else {
        spec_spaces((w - cell.len()) as nat) + cell
    }
}

/// A cell padded on the right with spaces up to width `w` (left-aligned).
pub open spec fn spec_pad_right(cell: Seq<char>, w: nat) -> Seq<char> {
    if cell.len() >= w {
        cell
    } else {
        cell + spec_spaces((w - cell.len()) as nat)
    }
}

/// A run of `n` copies of one character.
pub open spec fn spec_repeat(c: char, n: nat) -> Seq<char>
    decreases n,
{
    if n == 0 {
        Seq::empty()
    } else {
        spec_repeat(c, (n - 1) as nat) + seq![c]
    }
}

/// Index of the first top-level occurrence of `needle` in the tail of
/// `s` that starts at `from`, relative to that tail.
pub fn find_top_from(s: &str, from: usize, needle: char) -> (r: usize)
    requires
        from <= s@.len(),
    ensures
        r <= s@.len() - from,
        r == spec_first_top(s@.subrange(from as int, s@.len() as int), needle),
{
    let ghost tail = s@.subrange(from as int, s@.len() as int);
    let n = s.unicode_len();
    let mut i = from;
    let mut depth: usize = 0;
    let mut inq = false;
    let mut esc = false;
    while i < n
        invariant
            from <= i <= n,
            depth <= i - from,
            spec_first_top(tail, needle) == spec_first_top_from(
                tail,
                i - from,
                ScanState { depth: depth as nat, inq, esc },
                needle,
            ),
        decreases n - i,
    {
        let ghost st = ScanState { depth: depth as nat, inq, esc };
        proof {
            assert(tail[i - from] == s@[i as int]);
        }
        let c = s.get_char(i);
        if depth == 0 && !inq && !esc && c == needle {
            return i - from;
        }
        if esc {
            esc = false;
        } else if inq {
            if c == '\\' {
                esc = true;
            } else if c == '"' {
                inq = false;
            }
        } else if c == '"' {
            inq = true;
        } else if c == '[' || c == '{' || c == '(' {
            depth = depth + 1;
        } else if c == ']' || c == '}' || c == ')' {
            if depth > 0 {
                depth = depth - 1;
            }
        }
        proof {
            assert(ScanState { depth: depth as nat, inq, esc } == spec_step_all(
                st,
                tail[i - from],
            ));
        }
        i = i + 1;
    }
    n - from
}

/// `s` split at its top-level commas.
pub fn split_top(s: &str) -> (r: Vec<String>)
    ensures
        r.deep_view() == spec_split_top(s@),
{
    let n = s.unicode_len();
    let mut parts: Vec<String> = Vec::new();
    proof {
        assert(s@.subrange(0, n as int) =~= s@);
        assert(parts.deep_view() =~= Seq::<Seq<char>>::empty());
        assert(parts.deep_view() + spec_split_top(s@) =~= spec_split_top(s@));
    }
    let mut pos: usize = 0;
    loop
        invariant
            0 <= pos <= n,
            spec_split_top(s@) == parts.deep_view() + spec_split_top(
                s@.subrange(pos as int, n as int),
            ),
        decreases n - pos,
    {
        let ghost tail = s@.subrange(pos as int, n as int);
        let k = find_top_from(s, pos, ',');
        if pos + k < n {
            let piece = substr(s, pos, pos + k);
            let ghost pv = piece@;
            parts.push(piece);
            proof {
                assert(tail.subrange(0, k as int) =~= pv);
                assert(tail.subrange(k + 1, tail.len() as int) =~= s@.subrange(
                    pos + k + 1,
                    n as int,
                ));
                assert(spec_split_top(tail) == seq![pv] + spec_split_top(
                    s@.subrange(pos + k + 1, n as int),
                ));
                assert(parts.deep_view() =~= parts.deep_view().subrange(
                    0,
                    parts.deep_view().len() - 1,
                ) + seq![pv]);
                assert(parts.deep_view() + spec_split_top(s@.subrange(pos + k + 1, n as int))
                    =~= (parts.deep_view().subrange(0, parts.deep_view().len() - 1) + seq![pv])
                    + spec_split_top(s@.subrange(pos + k + 1, n as int)));
            }
            pos = pos + k + 1;
        } else {
            let piece = substr(s, pos, n);
            let ghost pv = piece@;
            parts.push(piece);
            proof {
                assert(spec_split_top(tail) =~= seq![pv]);
                assert(spec_split_top(s@) =~= parts.deep_view());
            }
            return parts;
        }
    }
}

/// The top-level split with every piece trimmed.
pub fn split_top_trim(s: &str) -> (r: Vec<String>)
    ensures
        r.deep_view() == spec_split_top_trim(s@),
{
    let raw = split_top(s);
    let mut out: Vec<String> = Vec::new();
    let mut i: usize = 0;
    while i < raw.len()
        invariant
            0 <= i <= raw.len(),
            raw.deep_view() == spec_split_top(s@),
            out.deep_view() == raw.deep_view().subrange(0, i as int).map_values(
                |e: Seq<char>| spec_trim(e),
            ),
        decreases raw.len() - i,
    {
        let ghost old_dv = out.deep_view();
        let t = trim_str(raw[i].as_str());
        let ghost tv = t@;
        out.push(t);
        proof {
            assert(out.deep_view() =~= old_dv.push(tv));
            assert(raw.deep_view().subrange(0, i + 1) =~= raw.deep_view().subrange(
                0,
                i as int,
            ).push(raw.deep_view()[i as int]));
            assert(out.deep_view() =~= raw.deep_view().subrange(0, i + 1).map_values(
                |e: Seq<char>| spec_trim(e),
            ));
        }
        i = i + 1;
    }
    proof {
        assert(raw.deep_view().subrange(0, raw.deep_view().len() as int) =~= raw.deep_view());
    }
    out
}

/// The nesting depth of `s`: greatest square-bracket depth outside quotes.
pub fn nesting_depth(s: &str) -> (r: usize)
    ensures
        r == spec_nesting_depth(s@),
{
    let n = s.unicode_len();
    let mut i: usize = 0;
    let mut depth: usize = 0;
    let mut best: usize = 0;
    let mut inq = false;
    let mut esc = false;
    while i < n
        invariant
            0 <= i <= n,
            depth <= i,
            best <= n,
            depth <= best || best <= n,
            spec_nesting_depth(s@) == (if best as nat >= spec_max_sq_from(
                s@,
                i as int,
                ScanState { depth: depth as nat, inq, esc },
            ) {
                best as nat
            } else {
                spec_max_sq_from(s@, i as int, ScanState { depth: depth as nat, inq, esc })
            }),
            best >= depth,
        decreases n - i,
    {
        let ghost st = ScanState { depth: depth as nat, inq, esc };
        let c = s.get_char(i);
        if esc {
            esc = false;
        } else if inq {
            if c == '\\' {
                esc = true;
            } else if c == '"' {
                inq = false;
            }
        } else if c == '"' {
            inq = true;
        } else if c == '[' {
            depth = depth + 1;
            if depth > best {
                best = depth;
            }
        } else if c == ']' {
            if depth > 0 {
                depth = depth - 1;
            }
        }
        proof {
            assert(ScanState { depth: depth as nat, inq, esc } == spec_step_sq(st, s@[i as int]));
        }
        i = i + 1;
    }
    best
}

/// A trimmed piece with one surrounding pair of double quotes removed.
pub fn strip_quotes(s: &str) -> (r: String)
    ensures
        r@ == spec_strip_quotes(s@),
{
    let t = trim_str(s);
    let tn = t.as_str().unicode_len();
    if tn >= 2 && t.as_str().get_char(0) == '"' && t.as_str().get_char(tn - 1) == '"' {
        substr(t.as_str(), 1, tn - 1)
    } else {
        t
    }
}

/// Appends `n` copies of `c` to `out`.
pub fn push_repeat(out: &mut String, c: char, n: usize)
    ensures
        final(out)@ == old(out)@ + spec_repeat(c, n as nat),
{
    let mut i: usize = 0;
    while i < n
        invariant
            0 <= i <= n,
            out@ == old(out)@ + spec_repeat(c, i as nat),
        decreases n - i,
    {
        push_char(out, c);
        i = i + 1;
    }
}

/// Appends `cell` right-aligned in width `w`.
pub fn push_pad_left(out: &mut String, cell: &str, w: usize)
    ensures
        final(out)@ == old(out)@ + spec_pad_left(cell@, w as nat),
{
    let len = cell.unicode_len();
    if len < w {
        push_spaces(out, w - len);
    }
    out.append(cell);
}

/// Appends `cell` left-aligned in width `w`.
pub fn push_pad_right(out: &mut String, cell: &str, w: usize)
    ensures
        final(out)@ == old(out)@ + spec_pad_right(cell@, w as nat),
{
    out.append(cell);
    let len = cell.unicode_len();
    if len < w {
        push_spaces(out, w - len);
    }
}

/// The cells of one already-trimmed row, or `None` when it is not
/// bracketed.
pub fn row_cells(row: &str) -> (r: Option<Vec<String>>)
    ensures
        match r {
            Some(cs) => spec_row_cells(row@) == Some(cs.deep_view()),
            None => spec_row_cells(row@) is None,
        },
{
    let n = row.unicode_len();
    if n >= 2 && row.get_char(0) == '[' && row.get_char(n - 1) == ']' {
        let inner = substr(row, 1, n - 1);
        Some(split_top_trim(inner.as_str()))
    } else {
        None
    }
}

/// Reads a debug representation as a grid of trimmed cell strings.
pub fn parse_grid(s: &str) -> (r: Option<Vec<Vec<String>>>)
    ensures
        match r {
            Some(g) => spec_parse_grid(s@) == Some(g.deep_view()),
            None => spec_parse_grid(s@) is None,
        },
{
    let t = trim_str(s);
    let tn = t.as_str().unicode_len();
    if tn >= 2 && t.as_str().get_char(0) == '[' && t.as_str().get_char(tn - 1) == ']' {
        let inner = substr(t.as_str(), 1, tn - 1);
        let rows = split_top_trim(inner.as_str());
        let ghost rows_v = rows.deep_view();
        let mut grid: Vec<Vec<String>> = Vec::new();
        let mut i: usize = 0;
        while i < rows.len()
            invariant
                0 <= i <= rows.len(),
                rows.deep_view() == rows_v,
                rows_v == spec_split_top_trim(spec_trim(s@).subrange(
                    1,
                    spec_trim(s@).len() - 1,
                )),
                forall|j: int| 0 <= j < i ==> spec_row_cells(#[trigger] rows_v[j]) is Some,
                grid.deep_view() == rows_v.subrange(0, i as int).map_values(
                    |r2: Seq<char>|
                        match spec_row_cells(r2) {
                            Some(cs) => cs,
                            None => Seq::<Seq<char>>::empty(),
                        },
                ),
            decreases rows.len() - i,
        {
            let ghost old_g = grid.deep_view();
            let cells_opt = row_cells(rows[i].as_str());
            match cells_opt {
                Some(cells) => {
                    let ghost cv = cells.deep_view();
                    grid.push(cells);
                    proof {
                        assert(grid.deep_view() =~= old_g.push(cv));
                        assert(rows_v.subrange(0, i + 1) =~= rows_v.subrange(0, i as int).push(
                            rows_v[i as int],
                        ));
                        assert(grid.deep_view() =~= rows_v.subrange(0, i + 1).map_values(
                            |r2: Seq<char>|
                                match spec_row_cells(r2) {
                                    Some(cs) => cs,
                                    None => Seq::<Seq<char>>::empty(),
                                },
                        ));
                    }
                },
                None => {
                    return None;
                },
            }
            i = i + 1;
        }
        proof {
            assert(rows_v.subrange(0, rows_v.len() as int) =~= rows_v);
        }
        Some(grid)
    } else {
        None
    }
}

/// Widths of the columns of a grid: entry `j` is the length of the
/// longest cell in column `j`.
pub fn grid_widths(g: &Vec<Vec<String>>) -> (r: Vec<usize>)
    ensures
        r.len() == spec_max_cols(g.deep_view()),
        forall|j: int|
            0 <= j < r.len() ==> r[j] == spec_col_width(g.deep_view(), j),
{
    let gv_len = g.len();
    let mut cols: usize = 0;
    proof {
        assert(g.deep_view().subrange(0, gv_len as int) =~= g.deep_view());
    }
    let mut i: usize = 0;
    while i < gv_len
        invariant
            0 <= i <= gv_len,
            spec_max_cols(g.deep_view()) == (if cols as nat >= spec_max_cols(
                g.deep_view().subrange(i as int, gv_len as int),
            ) {
                cols as nat
            } else {
                spec_max_cols(g.deep_view().subrange(i as int, gv_len as int))
            }),
        decreases gv_len - i,
    {
        proof {
            let gv = g.deep_view();
            assert(gv.subrange(i as int, gv_len as int)[0] == gv[i as int]);
            assert(gv.subrange(i as int, gv_len as int).drop_first() =~= gv.subrange(
                i + 1,
                gv_len as int,
            ));
            assert(gv[i as int].len() == g[i as int]@.len());
        }
        let row_len = g[i].len();
        if row_len > cols {
            cols = row_len;
        }
        i = i + 1;
    }
    proof {
        let gv = g.deep_view();
        assert(gv.subrange(0, gv_len as int) =~= gv);
        assert(spec_max_cols(gv.subrange(gv_len as int, gv_len as int)) == 0);
    }
    let mut widths: Vec<usize> = Vec::new();
    let mut j: usize = 0;
    while j < cols
        invariant
            0 <= j <= cols,
            cols == spec_max_cols(g.deep_view()),
            widths.len() == j,
            forall|jj: int|
                0 <= jj < j ==> widths[jj] == spec_col_width(g.deep_view(), jj),
        decreases cols - j,
    {
        let mut w: usize = 0;
        let mut i2: usize = 0;
        while i2 < gv_len
            invariant
                0 <= i2 <= gv_len,
                spec_col_width(g.deep_view(), j as int) == (if w as nat >= spec_col_width(
                    g.deep_view().subrange(i2 as int, gv_len as int),
                    j as int,
                ) {
                    w as nat
                } else {
                    spec_col_width(g.deep_view().subrange(i2 as int, gv_len as int), j as int)
                }),
            decreases gv_len - i2,
        {
            proof {
                let gv = g.deep_view();
                assert(gv.subrange(i2 as int, gv_len as int)[0] == gv[i2 as int]);
                assert(gv.subrange(i2 as int, gv_len as int).drop_first() =~= gv.subrange(
                    i2 + 1,
                    gv_len as int,
                ));
            }
            let row = &g[i2];
            if j < row.len() {
                proof {
                    assert(g.deep_view()[i2 as int][j as int] == row@[j as int]@);
                }
                let cl = row[j].as_str().unicode_len();
                if cl > w {
                    w = cl;
                }
            }
            i2 = i2 + 1;
        }
        proof {
            let gv = g.deep_view();
            assert(gv.subrange(gv_len as int, gv_len as int) =~= Seq::<Seq<Seq<char>>>::empty());
        }
        widths.push(w);
        j = j + 1;
    }
    widths
}

} // verus!
