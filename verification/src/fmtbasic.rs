//! The array formatter: pretty-prints the debug representation of a
//! nested sequence according to its nesting depth.
//!
//! Depth 0 or 1 leaves the text unchanged.  Depth 2 breaks the outer list
//! open with a three-pattern rewrite (`[[` to `[` newline indent `[`, the
//! row separator `], [` to `],` newline indent `[`, and `]]` to `]`
//! newline `]`).  Depth 3 or more expands the structure fully: every
//! bracket opens a level on a fresh line, every element stands on a line
//! of its own indented two spaces per level, and every closing bracket
//! returns to the indent of the level it closes.  All scanning is
//! quote-aware: brackets and commas inside quoted strings are plain text.
use crate::fmtcommon::{spec_nesting_depth, nesting_depth};
use crate::strutil::{lemma_spaces_add, push_char, push_spaces, spec_spaces};
use vstd::prelude::*;
use vstd::string::*;

verus! {

/// Whether the row-separator pattern `], [` stands at `i`.
pub open spec fn spec_sep_pat_at(s: Seq<char>, i: int) -> bool {
    i + 3 < s.len() && s[i] == ']' && s[i + 1] == ',' && s[i + 2] == ' ' && s[i + 3] == '['
}

/// Whether two copies of `c` stand at `i`.
pub open spec fn spec_double_at(s: Seq<char>, i: int, c: char) -> bool {
    i + 1 < s.len() && s[i] == c && s[i + 1] == c
}

/// The depth-2 rewrite from position `i` on, with quote state `(inq,
/// esc)`: the three patterns are replaced outside quotes, everything else
/// is copied.
pub open spec fn spec_rewrite2_from(s: Seq<char>, i: int, inq: bool, esc: bool) -> Seq<char>
    decreases s.len() - i,
{
    if i >= s.len() {
        Seq::empty()
    } else if !inq && !esc && spec_sep_pat_at(s, i) {
        seq![']', ',', '\n', ' ', ' ', '['] + spec_rewrite2_from(s, i + 4, false, false)
    } else if !inq && !esc && spec_double_at(s, i, '[') {
        seq!['[', '\n', ' ', ' ', '['] + spec_rewrite2_from(s, i + 2, false, false)
    } else if !inq && !esc && spec_double_at(s, i, ']') {
        seq![']', '\n', ']'] + spec_rewrite2_from(s, i + 2, false, false)
    } else {
        let c = s[i];
        let ninq = if esc {
            inq
        } else if inq {
            !(c == '"')
        } else {
            c == '"'
        };
        let nesc = if esc {
            false
        } else {
            inq && c == '\\'
        };
        seq![c] + spec_rewrite2_from(s, i + 1, ninq, nesc)
    }
}

pub open spec fn spec_rewrite2(s: Seq<char>) -> Seq<char> {
    spec_rewrite2_from(s, 0, false, false)
}

/// Index of the first character at or after `i` that is not a space.
pub open spec fn spec_skip_spaces(s: Seq<char>, i: int) -> int
    decreases s.len() - i,
{
    if i >= s.len() {
        s.len() as int
    } else if s[i] == ' ' {
        spec_skip_spaces(s, i + 1)
    } else {
        i
    }
}

/// The full expansion from position `i` with bracket depth `depth` and
/// quote state `(inq, esc)`.
pub open spec fn spec_expand_from(
    s: Seq<char>,
    i: int,
    depth: nat,
    inq: bool,
    esc: bool,
) -> Seq<char>
    decreases s.len() - i,
{
    if i >= s.len() {
        Seq::empty()
    } else {
        let c = s[i];
        if inq {
            let nesc = if esc {
                false
            } else {
                c == '\\'
            };
            let ninq = if !esc && c == '"' {
                false
            } else {
                true
            };
            seq![c] + spec_expand_from(s, i + 1, depth, ninq, nesc)
        } else if c == '"' {
            seq![c] + spec_expand_from(s, i + 1, depth, true, false)
        } else if c == '[' {
            let j = spec_skip_spaces(s, i + 1);
            if i + 1 <= j && j < s.len() && s[j] == ']' {
                seq!['[', ']'] + spec_expand_from(s, j + 1, depth, false, false)
            } else {
                seq!['[', '\n'] + spec_spaces(2 * (depth + 1)) + spec_expand_from(
                    s,
                    i + 1,
                    depth + 1,
                    false,
                    false,
                )
            }
        } else if c == ']' {
            if depth > 0 {
                seq!['\n'] + spec_spaces(2 * ((depth - 1) as nat)) + seq![']']
                    + spec_expand_from(s, i + 1, (depth - 1) as nat, false, false)
            } else {
                seq![']'] + spec_expand_from(s, i + 1, 0, false, false)
            }
        } else if c == ',' && depth > 0 {
            let k = spec_skip_spaces(s, i + 1);
            if i + 1 <= k && k <= s.len() {
                seq![',', '\n'] + spec_spaces(2 * depth) + spec_expand_from(
                    s,
                    k,
                    depth,
                    false,
                    false,
                )
            } else {
                seq![c] + spec_expand_from(s, i + 1, depth, false, false)
            }
        } else {
            seq![c] + spec_expand_from(s, i + 1, depth, false, false)
        }
    }
}

pub open spec fn spec_expand(s: Seq<char>) -> Seq<char> {
    spec_expand_from(s, 0, 0, false, false)
}

/// What the array formatter returns: the text unchanged up to depth 1,
/// the three-pattern rewrite at depth 2, the full expansion above that.
pub open spec fn spec_format_container(s: Seq<char>) -> Seq<char> {
    let d = spec_nesting_depth(s);
    if d <= 1 {
        s
    } else if d == 2 {
        spec_rewrite2(s)
    } else {
        spec_expand(s)
    }
}

/// Index of the first non-space character at or after `from`.
pub fn skip_spaces_from(s: &str, from: usize) -> (r: usize)
    requires
        from <= s@.len(),
    ensures
        from <= r <= s@.len(),
        r == spec_skip_spaces(s@, from as int),
    decreases s@.len() - from,
{
    let n = s.unicode_len();
    let mut i = from;
    while i < n
        invariant
            from <= i <= n,
            spec_skip_spaces(s@, from as int) == spec_skip_spaces(s@, i as int),
        decreases n - i,
    {
        if s.get_char(i) != ' ' {
            return i;
        }
        i = i + 1;
    }
    i
}

/// The depth-2 rewrite.
fn rewrite2(s: &str) -> (r: String)
    ensures
        r@ == spec_rewrite2(s@),
{
    let n = s.unicode_len();
    let mut out = String::new();
    let mut i: usize = 0;
    let mut inq = false;
    let mut esc = false;
    while i < n
        invariant
            0 <= i <= n,
            out@ + spec_rewrite2_from(s@, i as int, inq, esc) == spec_rewrite2(s@),
        decreases n - i,
    {
        let c = s.get_char(i);
        let sep_pat = !inq && !esc && n - i > 3 && c == ']' && s.get_char(i + 1) == ','
            && s.get_char(i + 2) == ' ' && s.get_char(i + 3) == '[';
        let open_pat = !inq && !esc && n - i > 1 && c == '[' && s.get_char(i + 1) == '[';
        let close_pat = !inq && !esc && n - i > 1 && c == ']' && s.get_char(i + 1) == ']';
        let ghost pre = out@;
        if sep_pat {
            push_char(&mut out, ']');
            push_char(&mut out, ',');
            push_char(&mut out, '\n');
            push_char(&mut out, ' ');
            push_char(&mut out, ' ');
            push_char(&mut out, '[');
            proof {
                assert(out@ =~= pre + seq![']', ',', '\n', ' ', ' ', '[']);
                assert(out@ + spec_rewrite2_from(s@, i + 4, false, false) =~= pre
                    + spec_rewrite2_from(s@, i as int, inq, esc));
            }
            i = i + 4;
            inq = false;
            esc = false;
        } else if open_pat {
            push_char(&mut out, '[');
            push_char(&mut out, '\n');
            push_char(&mut out, ' ');
            push_char(&mut out, ' ');
            push_char(&mut out, '[');
            proof {
                assert(out@ =~= pre + seq!['[', '\n', ' ', ' ', '[']);
                assert(out@ + spec_rewrite2_from(s@, i + 2, false, false) =~= pre
                    + spec_rewrite2_from(s@, i as int, inq, esc));
            }
            i = i + 2;
            inq = false;
            esc = false;
        } else if close_pat {
            push_char(&mut out, ']');
            push_char(&mut out, '\n');
            push_char(&mut out, ']');
            proof {
                assert(out@ =~= pre + seq![']', '\n', ']']);
                assert(out@ + spec_rewrite2_from(s@, i + 2, false, false) =~= pre
                    + spec_rewrite2_from(s@, i as int, inq, esc));
            }
            i = i + 2;
            inq = false;
            esc = false;
        } else {
            push_char(&mut out, c);
            let ninq = if esc {
                inq
            } else if inq {
                !(c == '"')
            } else {
                c == '"'
            };
            let nesc = if esc {
                false
            } else {
                inq && c == '\\'
            };
            proof {
                assert(out@ =~= pre + seq![c]);
                assert(out@ + spec_rewrite2_from(s@, i + 1, ninq, nesc) =~= pre
                    + spec_rewrite2_from(s@, i as int, inq, esc));
            }
            i = i + 1;
            inq = ninq;
            esc = nesc;
        }
    }
    proof {
        assert(out@ + Seq::<char>::empty() =~= out@);
    }
    out
}

/// The full expansion.
#[verifier::rlimit(100)]
fn expand(s: &str) -> (r: String)
    ensures
        r@ == spec_expand(s@),
{
    let n = s.unicode_len();
    let mut out = String::new();
    let mut i: usize = 0;
    let mut depth: usize = 0;
    let mut inq = false;
    let mut esc = false;
    while i < n
        invariant
            0 <= i <= n,
            depth <= i,
            out@ + spec_expand_from(s@, i as int, depth as nat, inq, esc) == spec_expand(s@),
        decreases n - i,
    {
        let c = s.get_char(i);
        let ghost pre = out@;
        if inq {
            push_char(&mut out, c);
            let nesc = if esc {
                false
            } else {
                c == '\\'
            };
            let ninq = if !esc && c == '"' {
                false
            } else {
                true
            };
            proof {
                assert(out@ + spec_expand_from(s@, i + 1, depth as nat, ninq, nesc) =~= pre
                    + spec_expand_from(s@, i as int, depth as nat, inq, esc));
            }
            i = i + 1;
            inq = ninq;
            esc = nesc;
        } else if c == '"' {
            push_char(&mut out, c);
            proof {
                assert(out@ + spec_expand_from(s@, i + 1, depth as nat, true, false) =~= pre
                    + spec_expand_from(s@, i as int, depth as nat, inq, esc));
            }
            i = i + 1;
            inq = true;
            esc = false;
        } else if c == '[' {
            let j = skip_spaces_from(s, i + 1);
            if j < n && s.get_char(j) == ']' {
                push_char(&mut out, '[');
                push_char(&mut out, ']');
                proof {
                    assert(out@ =~= pre + seq!['[', ']']);
                    assert(out@ + spec_expand_from(s@, j + 1, depth as nat, false, false) =~= pre
                        + spec_expand_from(s@, i as int, depth as nat, inq, esc));
                }
                i = j + 1;
            } else {
                push_char(&mut out, '[');
                push_char(&mut out, '\n');
                push_spaces(&mut out, depth + 1);
                push_spaces(&mut out, depth + 1);
                proof {
                    lemma_spaces_add((depth + 1) as nat, (depth + 1) as nat);
                    assert(out@ =~= pre + (seq!['[', '\n'] + spec_spaces(2 * (depth + 1) as nat)));
                    assert(out@ + spec_expand_from(s@, i + 1, (depth + 1) as nat, false, false)
                        =~= pre + spec_expand_from(s@, i as int, depth as nat, inq, esc));
                }
                i = i + 1;
                depth = depth + 1;
            }
            inq = false;
            esc = false;
        } else if c == ']' {
            if depth > 0 {
                push_char(&mut out, '\n');
                push_spaces(&mut out, depth - 1);
                push_spaces(&mut out, depth - 1);
                push_char(&mut out, ']');
                proof {
                    lemma_spaces_add((depth - 1) as nat, (depth - 1) as nat);
                    assert(out@ =~= pre + (seq!['\n'] + spec_spaces(2 * (depth - 1) as nat)
                        + seq![']']));
                    assert(out@ + spec_expand_from(s@, i + 1, (depth - 1) as nat, false, false)
                        =~= pre + spec_expand_from(s@, i as int, depth as nat, inq, esc));
                }
                depth = depth - 1;
            } else {
                push_char(&mut out, ']');
                proof {
                    assert(out@ =~= pre + seq![']']);
                    assert(out@ + spec_expand_from(s@, i + 1, 0nat, false, false) =~= pre
                        + spec_expand_from(s@, i as int, depth as nat, inq, esc));
                }
            }
            i = i + 1;
            inq = false;
            esc = false;
        } else if c == ',' && depth > 0 {
            let k = skip_spaces_from(s, i + 1);
            push_char(&mut out, ',');
            push_char(&mut out, '\n');
            push_spaces(&mut out, depth);
            push_spaces(&mut out, depth);
            proof {
                lemma_spaces_add(depth as nat, depth as nat);
                assert(out@ =~= pre + (seq![',', '\n'] + spec_spaces(2 * depth as nat)));
                assert(out@ + spec_expand_from(s@, k as int, depth as nat, false, false) =~= pre
                    + spec_expand_from(s@, i as int, depth as nat, inq, esc));
            }
            i = k;
            inq = false;
            esc = false;
        } else {
            push_char(&mut out, c);
            proof {
                assert(out@ =~= pre + seq![c]);
                assert(out@ + spec_expand_from(s@, i + 1, depth as nat, false, false) =~= pre
                    + spec_expand_from(s@, i as int, depth as nat, inq, esc));
            }
            i = i + 1;
            inq = false;
            esc = false;
        }
    }
    proof {
        assert(out@ + Seq::<char>::empty() =~= out@);
    }
    out
}

/// Pretty-prints the debug representation of a nested sequence: depth 0
/// or 1 is returned unchanged, depth 2 gets the outer list broken open,
/// deeper structures are expanded one element per line with two more
/// spaces of indent per nesting level.
pub fn format_container(s: &str) -> (r: String)
    ensures
        r@ == spec_format_container(s@),
{
    let d = nesting_depth(s);
    if d <= 1 {
        String::from_str(s)
    } else if d == 2 {
        rewrite2(s)
    } else {
        expand(s)
    }
}

} // verus!
