//! The table formatter.
//!
//! The input is the debug representation of a flat map `{k: v, ...}`, a
//! flat sequence `[a, b, ...]`, or a map of maps up to three levels deep.
//! A flat map becomes a bordered two-column table, a flat sequence a
//! bordered one-column table; quotes around keys and scalar values are
//! stripped.  Column headers are the caller's strings, verbatim and in
//! call order; without them the headers derive from the shape (`Key` and
//! `Value` for a map, `Value` for a sequence).  A map whose values are
//! all maps renders as sections: each outer key becomes a styled heading
//! line above the table of its value, colored by nesting level (the
//! caller's header color outermost, then `bright_cyan`, then
//! `bright_magenta`), with headings bold and italic.  Text of any other
//! shape is returned unchanged.
use crate::colorstyle::{ansi_code_for_style, spec_ansi_code, spec_reset};
use crate::fmtcommon::{
    find_top_from, push_pad_right, push_repeat, spec_first_top, spec_pad_right, spec_repeat,
    spec_split_top, spec_split_top_trim, spec_strip_quotes, split_top, split_top_trim,
    strip_quotes,
};
use crate::strutil::{push_char, spec_trim, substr, trim_str};
use vstd::prelude::*;
use vstd::string::*;

verus! {

/// Whether an entry holds a top-level colon separating key from value.
pub open spec fn spec_has_colon(e: Seq<char>) -> bool {
    0 <= spec_first_top(e, ':') < e.len()
}

/// The key of an entry: everything before the first top-level colon,
/// quote-stripped.
pub open spec fn spec_kv_key(e: Seq<char>) -> Seq<char> {
    spec_strip_quotes(e.subrange(0, spec_first_top(e, ':')))
}

/// The value of an entry: everything after the first top-level colon,
/// quote-stripped.
pub open spec fn spec_kv_val(e: Seq<char>) -> Seq<char> {
    spec_strip_quotes(e.subrange(spec_first_top(e, ':') + 1, e.len() as int))
}

/// Whether a (stripped) value is itself a braced map.
pub open spec fn spec_is_braced(v: Seq<char>) -> bool {
    v.len() >= 2 && v[0] == '{' && v[v.len() - 1] == '}'
}

/// The longest of `base` and the lengths of the strings in `xs`.
pub open spec fn spec_max_len(xs: Seq<Seq<char>>, base: nat) -> nat
    decreases xs.len(),
{
    if xs.len() == 0 {
        base
    } else {
        let rest = spec_max_len(xs.drop_first(), base);
        if xs[0].len() >= rest {
            xs[0].len()
        } else {
            rest
        }
    }
}

pub proof fn lemma_max_len_ge_base(xs: Seq<Seq<char>>, base: nat)
    ensures
        spec_max_len(xs, base) >= base,
    decreases xs.len(),
{
    if xs.len() > 0 {
        lemma_max_len_ge_base(xs.drop_first(), base);
    }
}

/// A horizontal border over two columns of widths `w0` and `w1`, each
/// two wider for the interior padding.
pub open spec fn spec_border2(w0: nat, w1: nat, l: char, m: char, r: char) -> Seq<char> {
    seq![l] + spec_repeat('─', w0) + seq!['─', '─', m] + spec_repeat('─', w1) + seq![
        '─',
        '─',
        r,
        '\n',
    ]
}

/// A horizontal border over one column of width `w`.
pub open spec fn spec_border1(w: nat, l: char, r: char) -> Seq<char> {
    seq![l] + spec_repeat('─', w) + seq!['─', '─', r, '\n']
}

/// A column-header cell: the header text padded to the column width,
/// colored and bold.
pub open spec fn spec_header_cell(h: Seq<char>, w: nat, color: Seq<char>) -> Seq<char> {
    spec_ansi_code(seq![color, "bold"@]) + spec_pad_right(h, w) + spec_reset()
}

/// The data rows of a two-column table from row `i` on.
pub open spec fn spec_map_rows(
    keys: Seq<Seq<char>>,
    vals: Seq<Seq<char>>,
    w0: nat,
    w1: nat,
    i: int,
) -> Seq<char>
    decreases keys.len() - i,
{
    if i < 0 || i >= keys.len() || i >= vals.len() {
        Seq::empty()
    } else {
        seq!['│', ' '] + spec_pad_right(keys[i], w0) + seq![' ', '│', ' '] + spec_pad_right(
            vals[i],
            w1,
        ) + seq![' ', '│', '\n'] + spec_map_rows(keys, vals, w0, w1, i + 1)
    }
}

/// The data rows of a one-column table from row `i` on.
pub open spec fn spec_seq_rows(elems: Seq<Seq<char>>, w: nat, i: int) -> Seq<char>
    decreases elems.len() - i,
{
    if i < 0 || i >= elems.len() {
        Seq::empty()
    } else {
        seq!['│', ' '] + spec_pad_right(elems[i], w) + seq![' ', '│', '\n'] + spec_seq_rows(
            elems,
            w,
            i + 1,
        )
    }
}

/// A bordered two-column table over parallel key and value lists.
pub open spec fn spec_flat_map_table(
    keys: Seq<Seq<char>>,
    vals: Seq<Seq<char>>,
    headers: Seq<Seq<char>>,
    color: Seq<char>,
) -> Seq<char> {
    let h0 = if headers.len() >= 1 {
        headers[0]
    } else {
        "Key"@
    };
    let h1 = if headers.len() >= 2 {
        headers[1]
    } else {
        "Value"@
    };
    let w0 = spec_max_len(keys, h0.len());
    let w1 = spec_max_len(vals, h1.len());
    spec_border2(w0, w1, '┌', '┬', '┐') + seq!['│', ' '] + spec_header_cell(h0, w0, color)
        + seq![' ', '│', ' '] + spec_header_cell(h1, w1, color) + seq![' ', '│', '\n']
        + spec_border2(w0, w1, '├', '┼', '┤') + spec_map_rows(keys, vals, w0, w1, 0)
        + spec_border2(w0, w1, '└', '┴', '┘')
}

/// A bordered one-column table over a list of elements.
pub open spec fn spec_flat_seq_table(
    elems: Seq<Seq<char>>,
    headers: Seq<Seq<char>>,
    color: Seq<char>,
) -> Seq<char> {
    let h = if headers.len() >= 1 {
        headers[0]
    } else {
        "Value"@
    };
    let w = spec_max_len(elems, h.len());
    spec_border1(w, '┌', '┐') + seq!['│', ' '] + spec_header_cell(h, w, color) + seq![
        ' ',
        '│',
        '\n',
    ] + spec_border1(w, '├', '┤') + spec_seq_rows(elems, w, 0) + spec_border1(w, '└', '┘')
}

/// The heading color of a nesting level: the caller's color outermost,
/// then `bright_cyan`, then `bright_magenta`.
pub open spec fn spec_level_color(color: Seq<char>, level: nat) -> Seq<char> {
    if level == 0 {
        color
    } else if level == 1 {
        "bright_cyan"@
    } else {
        "bright_magenta"@
    }
}

/// A section heading: the key, styled bold and italic in the level's
/// color, on a line of its own.
pub open spec fn spec_section_header(key: Seq<char>, color: Seq<char>, level: nat) -> Seq<char> {
    spec_ansi_code(seq![spec_level_color(color, level), "bold"@, "italic"@]) + key + spec_reset()
        + seq!['\n']
}

/// The sections of a nested map: each key's heading followed by the
/// table of its value, one nesting level deeper.
pub open spec fn spec_sections(
    keys: Seq<Seq<char>>,
    vals: Seq<Seq<char>>,
    headers: Seq<Seq<char>>,
    color: Seq<char>,
    level: nat,
) -> Seq<char>
    decreases 2 - level, 0int, keys.len(),
{
    if level >= 2 || keys.len() == 0 || vals.len() == 0 {
        Seq::empty()
    } else {
        spec_section_header(keys[0], color, level) + spec_table_at(
            vals[0],
            headers,
            color,
            level + 1,
        ) + spec_sections(keys.drop_first(), vals.drop_first(), headers, color, level)
    }
}

/// The rendering of one value at a nesting level: a sectioned table for
/// a map of maps (above the deepest level), a flat two-column table for
/// a map, a one-column table for a sequence, the text unchanged for
/// anything else.
pub open spec fn spec_table_at(
    s: Seq<char>,
    headers: Seq<Seq<char>>,
    color: Seq<char>,
    level: nat,
) -> Seq<char>
    decreases 2 - level, 1int, 0int,
{
    let t = spec_trim(s);
    if t.len() >= 2 && t[0] == '{' && t[t.len() - 1] == '}' {
        let inner = t.subrange(1, t.len() - 1);
        if spec_trim(inner).len() == 0 {
            s
        } else {
            let entries = spec_split_top_trim(inner);
            if forall|i: int| 0 <= i < entries.len() ==> spec_has_colon(#[trigger] entries[i]) {
                let keys = entries.map_values(|e: Seq<char>| spec_kv_key(e));
                let vals = entries.map_values(|e: Seq<char>| spec_kv_val(e));
                if level < 2 && (forall|i: int|
                    0 <= i < vals.len() ==> spec_is_braced(#[trigger] vals[i])) {
                    spec_sections(keys, vals, headers, color, level)
                } else {
                    spec_flat_map_table(keys, vals, headers, color)
                }
            } else {
                s
            }
        }
    } else if t.len() >= 2 && t[0] == '[' && t[t.len() - 1] == ']' {
        let inner = t.subrange(1, t.len() - 1);
        if spec_trim(inner).len() == 0 {
            s
        } else {
            spec_flat_seq_table(
                spec_split_top(inner).map_values(|e: Seq<char>| spec_strip_quotes(e)),
                headers,
                color,
            )
        }
    } else {
        s
    }
}

/// What the table formatter returns.
pub open spec fn spec_format_table(
    s: Seq<char>,
    headers: Seq<Seq<char>>,
    color: Seq<char>,
) -> Seq<char> {
    spec_table_at(s, headers, color, 0)
}

/// The longest of `base` and the lengths of the strings in `xs`.
fn max_len(xs: &Vec<String>, base: usize) -> (r: usize)
    ensures
        r == spec_max_len(xs.deep_view(), base as nat),
{
    let ghost xv = xs.deep_view();
    proof {
        lemma_max_len_ge_base(xv, base as nat);
        assert(xv.subrange(0, xv.len() as int) =~= xv);
    }
    let n = xs.len();
    let mut cur = base;
    let mut i: usize = 0;
    while i < n
        invariant
            0 <= i <= n,
            n == xs.len(),
            xv == xs.deep_view(),
            cur >= base,
            spec_max_len(xv, base as nat) == (if cur as nat >= spec_max_len(
                xv.subrange(i as int, n as int),
                base as nat,
            ) {
                cur as nat
            } else {
                spec_max_len(xv.subrange(i as int, n as int), base as nat)
            }),
        decreases n - i,
    {
        proof {
            assert(xv.subrange(i as int, n as int)[0] == xv[i as int]);
            assert(xv.subrange(i as int, n as int).drop_first() =~= xv.subrange(
                i + 1,
                n as int,
            ));
            assert(xv[i as int] == xs[i as int]@);
        }
        let l = xs[i].as_str().unicode_len();
        if l > cur {
            cur = l;
        }
        i = i + 1;
    }
    proof {
        assert(xv.subrange(n as int, n as int) =~= Seq::<Seq<char>>::empty());
    }
    cur
}

/// Appends a two-column border line.
fn push_border2(out: &mut String, w0: usize, w1: usize, l: char, m: char, r: char)
    ensures
        final(out)@ == old(out)@ + spec_border2(w0 as nat, w1 as nat, l, m, r),
{
    push_char(out, l);
    push_repeat(out, '─', w0);
    push_char(out, '─');
    push_char(out, '─');
    push_char(out, m);
    push_repeat(out, '─', w1);
    push_char(out, '─');
    push_char(out, '─');
    push_char(out, r);
    push_char(out, '\n');
    proof {
        assert(out@ =~= old(out)@ + spec_border2(w0 as nat, w1 as nat, l, m, r));
    }
}

/// Appends a one-column border line.
fn push_border1(out: &mut String, w: usize, l: char, r: char)
    ensures
        final(out)@ == old(out)@ + spec_border1(w as nat, l, r),
{
    push_char(out, l);
    push_repeat(out, '─', w);
    push_char(out, '─');
    push_char(out, '─');
    push_char(out, r);
    push_char(out, '\n');
    proof {
        assert(out@ =~= old(out)@ + spec_border1(w as nat, l, r));
    }
}

/// Appends a colored, bold column-header cell padded to width `w`.
fn push_header_cell(out: &mut String, h: &str, w: usize, color: &str)
    ensures
        final(out)@ == old(out)@ + spec_header_cell(h@, w as nat, color@),
{
    let mut styles: Vec<String> = Vec::new();
    styles.push(String::from_str(color));
    styles.push(String::from_str("bold"));
    let sl = styles.as_slice();
    proof {
        assert(sl.deep_view() =~= seq![color@, "bold"@]);
    }
    let code = ansi_code_for_style(sl);
    out.append(code.as_str());
    push_pad_right(out, h, w);
    out.append("\x1B[0m");
    proof {
        assert(out@ =~= old(out)@ + spec_header_cell(h@, w as nat, color@));
    }
}

/// Appends the data rows of a two-column table.
fn push_map_rows(out: &mut String, keys: &Vec<String>, vals: &Vec<String>, w0: usize, w1: usize)
    requires
        keys.len() == vals.len(),
    ensures
        final(out)@ == old(out)@ + spec_map_rows(
            keys.deep_view(),
            vals.deep_view(),
            w0 as nat,
            w1 as nat,
            0,
        ),
{
    let ghost kv = keys.deep_view();
    let ghost vv = vals.deep_view();
    let n = keys.len();
    let mut i: usize = 0;
    while i < n
        invariant
            0 <= i <= n,
            n == keys.len() == vals.len(),
            kv == keys.deep_view(),
            vv == vals.deep_view(),
            out@ + spec_map_rows(kv, vv, w0 as nat, w1 as nat, i as int) == old(out)@
                + spec_map_rows(kv, vv, w0 as nat, w1 as nat, 0),
        decreases n - i,
    {
        let ghost pre = out@;
        proof {
            assert(kv[i as int] == keys[i as int]@);
            assert(vv[i as int] == vals[i as int]@);
        }
        push_char(out, '│');
        push_char(out, ' ');
        push_pad_right(out, keys[i].as_str(), w0);
        push_char(out, ' ');
        push_char(out, '│');
        push_char(out, ' ');
        push_pad_right(out, vals[i].as_str(), w1);
        push_char(out, ' ');
        push_char(out, '│');
        push_char(out, '\n');
        proof {
            assert(out@ + spec_map_rows(kv, vv, w0 as nat, w1 as nat, i + 1) =~= pre
                + spec_map_rows(kv, vv, w0 as nat, w1 as nat, i as int));
        }
        i = i + 1;
    }
    proof {
        assert(spec_map_rows(kv, vv, w0 as nat, w1 as nat, n as int) =~= Seq::<char>::empty());
        assert(out@ =~= out@ + Seq::<char>::empty());
    }
}

/// Appends the data rows of a one-column table.
fn push_seq_rows(out: &mut String, elems: &Vec<String>, w: usize)
    ensures
        final(out)@ == old(out)@ + spec_seq_rows(elems.deep_view(), w as nat, 0),
{
    let ghost ev = elems.deep_view();
    let n = elems.len();
    let mut i: usize = 0;
    while i < n
        invariant
            0 <= i <= n,
            n == elems.len(),
            ev == elems.deep_view(),
            out@ + spec_seq_rows(ev, w as nat, i as int) == old(out)@ + spec_seq_rows(
                ev,
                w as nat,
                0,
            ),
        decreases n - i,
    {
        let ghost pre = out@;
        proof {
            assert(ev[i as int] == elems[i as int]@);
        }
        push_char(out, '│');
        push_char(out, ' ');
        push_pad_right(out, elems[i].as_str(), w);
        push_char(out, ' ');
        push_char(out, '│');
        push_char(out, '\n');
        proof {
            assert(out@ + spec_seq_rows(ev, w as nat, i + 1) =~= pre + spec_seq_rows(
                ev,
                w as nat,
                i as int,
            ));
        }
        i = i + 1;
    }
    proof {
        assert(spec_seq_rows(ev, w as nat, n as int) =~= Seq::<char>::empty());
        assert(out@ =~= out@ + Seq::<char>::empty());
    }
}

/// Builds a bordered two-column table.
fn flat_map_table(
    keys: &Vec<String>,
    vals: &Vec<String>,
    headers: &Vec<String>,
    color: &str,
) -> (r: String)
    requires
        keys.len() == vals.len(),
    ensures
        r@ == spec_flat_map_table(
            keys.deep_view(),
            vals.deep_view(),
            headers.deep_view(),
            color@,
        ),
{
    let h0 = if headers.len() >= 1 {
        headers[0].clone()
    } else {
        String::from_str("Key")
    };
    let h1 = if headers.len() >= 2 {
        headers[1].clone()
    } else {
        String::from_str("Value")
    };
    proof {
        assert(headers.len() >= 1 ==> headers.deep_view()[0] == headers[0]@);
        assert(headers.len() >= 2 ==> headers.deep_view()[1] == headers[1]@);
    }
    let w0 = max_len(keys, h0.as_str().unicode_len());
    let w1 = max_len(vals, h1.as_str().unicode_len());
    let mut out = String::new();
    push_border2(&mut out, w0, w1, '┌', '┬', '┐');
    push_char(&mut out, '│');
    push_char(&mut out, ' ');
    push_header_cell(&mut out, h0.as_str(), w0, color);
    push_char(&mut out, ' ');
    push_char(&mut out, '│');
    push_char(&mut out, ' ');
    push_header_cell(&mut out, h1.as_str(), w1, color);
    push_char(&mut out, ' ');
    push_char(&mut out, '│');
    push_char(&mut out, '\n');
    push_border2(&mut out, w0, w1, '├', '┼', '┤');
    push_map_rows(&mut out, keys, vals, w0, w1);
    push_border2(&mut out, w0, w1, '└', '┴', '┘');
    proof {
        assert(out@ =~= spec_flat_map_table(
            keys.deep_view(),
            vals.deep_view(),
            headers.deep_view(),
            color@,
        ));
    }
    out
}

/// Builds a bordered one-column table.
fn flat_seq_table(elems: &Vec<String>, headers: &Vec<String>, color: &str) -> (r: String)
    ensures
        r@ == spec_flat_seq_table(elems.deep_view(), headers.deep_view(), color@),
{
    let h = if headers.len() >= 1 {
        headers[0].clone()
    } else {
        String::from_str("Value")
    };
    proof {
        assert(headers.len() >= 1 ==> headers.deep_view()[0] == headers[0]@);
    }
    let w = max_len(elems, h.as_str().unicode_len());
    let mut out = String::new();
    push_border1(&mut out, w, '┌', '┐');
    push_char(&mut out, '│');
    push_char(&mut out, ' ');
    push_header_cell(&mut out, h.as_str(), w, color);
    push_char(&mut out, ' ');
    push_char(&mut out, '│');
    push_char(&mut out, '\n');
    push_border1(&mut out, w, '├', '┤');
    push_seq_rows(&mut out, elems, w);
    push_border1(&mut out, w, '└', '┘');
    proof {
        assert(out@ =~= spec_flat_seq_table(elems.deep_view(), headers.deep_view(), color@));
    }
    out
}

/// Renders one value at a nesting level.
#[verifier::rlimit(100)]
fn table_at(s: &str, headers: &Vec<String>, color: &str, level: usize) -> (r: String)
    requires
        level <= 2,
    ensures
        r@ == spec_table_at(s@, headers.deep_view(), color@, level as nat),
    decreases 2 - level, 1int,
{
    let t = trim_str(s);
    let tn = t.as_str().unicode_len();
    if tn >= 2 && t.as_str().get_char(0) == '{' && t.as_str().get_char(tn - 1) == '}' {
        let inner = substr(t.as_str(), 1, tn - 1);
        let innert = trim_str(inner.as_str());
        if innert.as_str().unicode_len() == 0 {
            return String::from_str(s);
        }
        let entries = split_top_trim(inner.as_str());
        let ghost ev = entries.deep_view();
        let mut keys: Vec<String> = Vec::new();
        let mut vals: Vec<String> = Vec::new();
        let mut i: usize = 0;
        while i < entries.len()
            invariant
                0 <= i <= entries.len(),
                ev == entries.deep_view(),
                forall|j: int| 0 <= j < i ==> spec_has_colon(#[trigger] ev[j]),
                keys.deep_view() == ev.subrange(0, i as int).map_values(
                    |e: Seq<char>| spec_kv_key(e),
                ),
                vals.deep_view() == ev.subrange(0, i as int).map_values(
                    |e: Seq<char>| spec_kv_val(e),
                ),
            decreases entries.len() - i,
        {
            let entry = &entries[i];
            let en = entry.as_str().unicode_len();
            let k = find_top_from(entry.as_str(), 0, ':');
            proof {
                assert(entry@.subrange(0, entry@.len() as int) =~= entry@);
                assert(ev[i as int] == entry@);
            }
            if k >= en {
                return String::from_str(s);
            }
            let ghost old_k = keys.deep_view();
            let ghost old_v = vals.deep_view();
            let key_raw = substr(entry.as_str(), 0, k);
            let val_raw = substr(entry.as_str(), k + 1, en);
            let key = strip_quotes(key_raw.as_str());
            let val = strip_quotes(val_raw.as_str());
            let ghost keyv = key@;
            let ghost valv = val@;
            keys.push(key);
            vals.push(val);
            proof {
                assert(keys.deep_view() =~= old_k.push(keyv));
                assert(vals.deep_view() =~= old_v.push(valv));
                assert(ev.subrange(0, i + 1) =~= ev.subrange(0, i as int).push(ev[i as int]));
                assert(keyv == spec_kv_key(ev[i as int]));
                assert(valv == spec_kv_val(ev[i as int]));
                assert(keys.deep_view() =~= ev.subrange(0, i + 1).map_values(
                    |e: Seq<char>| spec_kv_key(e),
                ));
                assert(vals.deep_view() =~= ev.subrange(0, i + 1).map_values(
                    |e: Seq<char>| spec_kv_val(e),
                ));
            }
            i = i + 1;
        }
        proof {
            assert(ev.subrange(0, ev.len() as int) =~= ev);
        }
        let ghost kv = keys.deep_view();
        let ghost vv = vals.deep_view();
        let mut all_braced = true;
        let mut b: usize = 0;
        while b < vals.len()
            invariant
                0 <= b <= vals.len(),
                vv == vals.deep_view(),
                all_braced == (forall|j: int| 0 <= j < b ==> spec_is_braced(#[trigger] vv[j])),
            decreases vals.len() - b,
        {
            let v = &vals[b];
            let vn = v.as_str().unicode_len();
            proof {
                assert(vv[b as int] == v@);
            }
            if !(vn >= 2 && v.as_str().get_char(0) == '{' && v.as_str().get_char(vn - 1) == '}') {
                all_braced = false;
            }
            b = b + 1;
        }
        if level < 2 && all_braced {
            let mut out = String::new();
            let n = keys.len();
            proof {
                assert(kv.subrange(0, n as int) =~= kv);
                assert(vv.subrange(0, n as int) =~= vv);
                assert(out@ + spec_sections(kv, vv, headers.deep_view(), color@, level as nat)
                    =~= spec_sections(kv, vv, headers.deep_view(), color@, level as nat));
            }
            let mut si: usize = 0;
            while si < n
                invariant
                    0 <= si <= n,
                    n == keys.len() == vals.len(),
                    kv == keys.deep_view(),
                    vv == vals.deep_view(),
                    level < 2,
                    level <= 2,
                    out@ + spec_sections(
                        kv.subrange(si as int, n as int),
                        vv.subrange(si as int, n as int),
                        headers.deep_view(),
                        color@,
                        level as nat,
                    ) == spec_sections(kv, vv, headers.deep_view(), color@, level as nat),
                decreases n - si,
            {
                let ghost pre = out@;
                let mut styles: Vec<String> = Vec::new();
                if level == 0 {
                    styles.push(String::from_str(color));
                } else {
                    styles.push(String::from_str("bright_cyan"));
                }
                styles.push(String::from_str("bold"));
                styles.push(String::from_str("italic"));
                let sl = styles.as_slice();
                proof {
                    assert(sl.deep_view() =~= seq![
                        spec_level_color(color@, level as nat),
                        "bold"@,
                        "italic"@,
                    ]);
                    assert(kv[si as int] == keys[si as int]@);
                    assert(vv[si as int] == vals[si as int]@);
                }
                let code = ansi_code_for_style(sl);
                out.append(code.as_str());
                out.append(keys[si].as_str());
                out.append("\x1B[0m");
                push_char(&mut out, '\n');
                let sub = table_at(vals[si].as_str(), headers, color, level + 1);
                out.append(sub.as_str());
                proof {
                    let hs = headers.deep_view();
                    let tail_k = kv.subrange(si as int, n as int);
                    let tail_v = vv.subrange(si as int, n as int);
                    assert(tail_k[0] == kv[si as int]);
                    assert(tail_v[0] == vv[si as int]);
                    assert(tail_k.drop_first() =~= kv.subrange(si + 1, n as int));
                    assert(tail_v.drop_first() =~= vv.subrange(si + 1, n as int));
                    assert(out@ + spec_sections(
                        kv.subrange(si + 1, n as int),
                        vv.subrange(si + 1, n as int),
                        hs,
                        color@,
                        level as nat,
                    ) =~= pre + spec_sections(tail_k, tail_v, hs, color@, level as nat));
                }
                si = si + 1;
            }
            proof {
                assert(kv.subrange(0, n as int) =~= kv);
                assert(vv.subrange(0, n as int) =~= vv);
                assert(kv.subrange(n as int, n as int) =~= Seq::<Seq<char>>::empty());
                assert(vv.subrange(n as int, n as int) =~= Seq::<Seq<char>>::empty());
                assert(out@ + Seq::<char>::empty() =~= out@);
            }
            out
        } else {
            flat_map_table(&keys, &vals, headers, color)
        }
    } else if tn >= 2 && t.as_str().get_char(0) == '[' && t.as_str().get_char(tn - 1) == ']' {
        let inner = substr(t.as_str(), 1, tn - 1);
        let innert = trim_str(inner.as_str());
        if innert.as_str().unicode_len() == 0 {
            return String::from_str(s);
        }
        let raw = split_top(inner.as_str());
        let ghost rv = raw.deep_view();
        let mut elems: Vec<String> = Vec::new();
        let mut i: usize = 0;
        while i < raw.len()
            invariant
                0 <= i <= raw.len(),
                rv == raw.deep_view(),
                elems.deep_view() == rv.subrange(0, i as int).map_values(
                    |e: Seq<char>| spec_strip_quotes(e),
                ),
            decreases raw.len() - i,
        {
            let ghost old_e = elems.deep_view();
            let e = strip_quotes(raw[i].as_str());
            let ghost ev2 = e@;
            elems.push(e);
            proof {
                assert(rv[i as int] == raw[i as int]@);
                assert(elems.deep_view() =~= old_e.push(ev2));
                assert(rv.subrange(0, i + 1) =~= rv.subrange(0, i as int).push(rv[i as int]));
                assert(elems.deep_view() =~= rv.subrange(0, i + 1).map_values(
                    |e2: Seq<char>| spec_strip_quotes(e2),
                ));
            }
            i = i + 1;
        }
        proof {
            assert(rv.subrange(0, rv.len() as int) =~= rv);
        }
        flat_seq_table(&elems, headers, color)
    } else {
        String::from_str(s)
    }
}

/// Pretty-prints a flat map, a flat sequence, or a nested map of maps as
/// a bordered, column-aligned table; headers are the caller's strings in
/// call order, or derive from the shape when none are given.  Text of
/// any other shape is returned unchanged.
pub fn format_table(repr: &str, headers: &Vec<String>, header_color: &str) -> (r: String)
    ensures
        r@ == spec_format_table(repr@, headers.deep_view(), header_color@),
{
    table_at(repr, headers, header_color, 0)
}

} // verus!
