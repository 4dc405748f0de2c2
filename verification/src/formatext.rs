//! The template lexer and the output-code generator.
//!
//! A template carries two independent marker families: style markers
//! `@( ... )`, found by a non-greedy scan whose content never holds a
//! right parenthesis, and variable markers `{ expr }`, `{ expr:format }`
//! or `{ expr:format(args) }`, found by a scan that forbids braces inside
//! the marker.  Marker content is classified by priority: empty content
//! is a style reset; content wrapped in one brace pair is an interpolated
//! style variable; content with at least one known color or style term is
//! a literal style change; any other content names a style variable.  A
//! variable marker that lies inside a style marker consumed as that
//! marker's interpolation is dropped.  The two families merge by start
//! position and the text between and around markers becomes literal text
//! tokens.  The lexer also reports the bare identifiers the template
//! mentions, so a host can silence unused-variable diagnostics.
use crate::colorstyle::{
    ansi_code_for_style, escape_string, lookup_code, spec_ansi_code, spec_escape, spec_sgr_code,
};
use crate::strutil::{
    contains_char, find_char_from, push_join, spec_contains_char, spec_find_char, spec_join,
    spec_split_trim, spec_trim, split_commas_trim, str_eq, substr, trim_str,
};
use vstd::prelude::*;
use vstd::slice::slice_index_get;
use vstd::string::*;

verus! {

/// One lexed token of a template.
#[derive(Clone, Debug)]
pub enum FormatToken {
    StyleChange { style_specs: Vec<String> },
    StyleReset,
    Text { content: String },
    Variable { name: String, format: Option<String>, format_args: Option<Vec<String>> },
    StyleVariable { name: String },
}

/// The mathematical shape of a token: every string as a character
/// sequence.
pub enum TokenModel {
    StyleChange { style_specs: Seq<Seq<char>> },
    StyleReset,
    Text { content: Seq<char> },
    Variable { name: Seq<char>, format: Option<Seq<char>>, format_args: Option<Seq<Seq<char>>> },
    StyleVariable { name: Seq<char> },
}

impl View for FormatToken {
    type V = TokenModel;

    open spec fn view(&self) -> TokenModel {
        match self {
            FormatToken::StyleChange { style_specs } => TokenModel::StyleChange {
                style_specs: style_specs.deep_view(),
            },
            FormatToken::StyleReset => TokenModel::StyleReset,
            FormatToken::Text { content } => TokenModel::Text { content: content@ },
            FormatToken::Variable { name, format, format_args } => TokenModel::Variable {
                name: name@,
                format: format.deep_view(),
                format_args: format_args.deep_view(),
            },
            FormatToken::StyleVariable { name } => TokenModel::StyleVariable { name: name@ },
        }
    }
}

impl DeepView for FormatToken {
    type V = TokenModel;

    open spec fn deep_view(&self) -> TokenModel {
        self.view()
    }
}

/// A style marker: its span in the template and its raw content.
pub struct SpecMarker {
    pub start: int,
    pub end: int,
    pub content: Seq<char>,
}

/// A variable marker: its span, expression, and raw format parts.
pub struct SpecVarMatch {
    pub start: int,
    pub end: int,
    pub expr: Seq<char>,
    pub format: Option<Seq<char>>,
    pub args: Option<Seq<char>>,
}

/// A classified token together with the span it came from.
pub struct SpecPositioned {
    pub start: int,
    pub end: int,
    pub token: TokenModel,
}

/// Whether a style marker `@( ... )` begins at `i`: the two opening
/// characters stand there and a closing parenthesis follows.
pub open spec fn spec_is_style_start(s: Seq<char>, i: int) -> bool {
    i + 1 < s.len() && s[i] == '@' && s[i + 1] == '(' && spec_find_char(s, i + 2, ')') < s.len()
}

/// All style markers at or after `i`, leftmost first, each ending at the
/// first closing parenthesis after its opening.
pub open spec fn spec_style_matches(s: Seq<char>, i: int) -> Seq<SpecMarker>
    decreases s.len() - i,
{
    if i >= s.len() {
        Seq::empty()
    } else if spec_is_style_start(s, i) {
        let k = spec_find_char(s, i + 2, ')');
        if i + 2 <= k && k < s.len() {
            seq![SpecMarker { start: i, end: k + 1, content: s.subrange(i + 2, k) }]
                + spec_style_matches(s, k + 1)
        } else {
            spec_style_matches(s, i + 1)
        }
    } else {
        spec_style_matches(s, i + 1)
    }
}

/// Whether style-marker content is an interpolation: after trimming,
/// exactly one pair of braces around a brace-free core.
pub open spec fn spec_is_interp(content: Seq<char>) -> bool {
    let t = spec_trim(content);
    t.len() >= 2 && t[0] == '{' && t[t.len() - 1] == '}' && !spec_contains_char(
        t.subrange(1, t.len() - 1),
        '{',
    ) && !spec_contains_char(t.subrange(1, t.len() - 1), '}')
}

/// The interpolated name: the brace-free core.
pub open spec fn spec_interp_name(content: Seq<char>) -> Seq<char> {
    let t = spec_trim(content);
    t.subrange(1, t.len() - 1)
}

/// Whether any comma-separated term of the content is a known color or
/// style name.
pub open spec fn spec_is_style_list(content: Seq<char>) -> bool {
    content.len() > 0 && exists|i: int|
        0 <= i < spec_split_trim(content).len() && spec_sgr_code(
            #[trigger] spec_split_trim(content)[i],
        ) is Some
}

/// The priority-ordered classification of style-marker content.
pub open spec fn spec_classify_style(content: Seq<char>) -> TokenModel {
    if content.len() == 0 {
        TokenModel::StyleReset
    } else if spec_is_interp(content) {
        TokenModel::StyleVariable { name: spec_interp_name(content) }
    } else if spec_is_style_list(content) {
        TokenModel::StyleChange { style_specs: spec_split_trim(content) }
    } else {
        TokenModel::StyleVariable { name: spec_trim(content) }
    }
}

/// End of the maximal format-specifier run from `j`: characters other
/// than braces and the opening parenthesis.
pub open spec fn spec_fmt_run_end(s: Seq<char>, j: int) -> int
    decreases s.len() - j,
{
    if j >= s.len() {
        s.len() as int
    } else if s[j] == '{' || s[j] == '}' || s[j] == '(' {
        j
    } else {
        spec_fmt_run_end(s, j + 1)
    }
}

/// The attempt to read `:format` or `:format(args)` at the colon
/// position `c`, ending at the closing brace; `None` when the text after
/// the colon does not have that shape.
pub open spec fn spec_format_attempt(s: Seq<char>, c: int) -> Option<
    (int, Seq<char>, Option<Seq<char>>),
> {
    let m = spec_fmt_run_end(s, c + 1);
    if m == c + 1 {
        None
    } else if m < s.len() && s[m] == '}' {
        Some((m + 1, s.subrange(c + 1, m), None))
    } else if m < s.len() && s[m] == '(' {
        let p = spec_find_char(s, m + 1, ')');
        if p + 1 < s.len() && s[p + 1] == '}' {
            Some((p + 2, s.subrange(c + 1, m), Some(s.subrange(m + 1, p))))
        } else {
            None
        }
    } else {
        None
    }
}

/// The scan for the end of a variable marker opened at `i`, standing at
/// `k`: the expression grows one character at a time until a closing
/// brace ends the marker, a colon starts a well-formed format part, or a
/// brace or the end of the template kills the match.
pub open spec fn spec_var_scan(s: Seq<char>, i: int, k: int) -> Option<
    (int, Seq<char>, Option<Seq<char>>, Option<Seq<char>>),
>
    decreases s.len() - k,
{
    if k >= s.len() {
        None
    } else if s[k] == '{' {
        None
    } else if s[k] == '}' {
        if k > i + 1 {
            Some((k + 1, s.subrange(i + 1, k), None, None))
        } else {
            None
        }
    } else if s[k] == ':' && k > i + 1 {
        match spec_format_attempt(s, k) {
            Some((end, fmt, args)) => Some((end, s.subrange(i + 1, k), Some(fmt), args)),
            None => spec_var_scan(s, i, k + 1),
        }
    } else {
        spec_var_scan(s, i, k + 1)
    }
}

/// The variable marker starting at `i`, when one matches there.
pub open spec fn spec_try_var(s: Seq<char>, i: int) -> Option<
    (int, Seq<char>, Option<Seq<char>>, Option<Seq<char>>),
> {
    if 0 <= i < s.len() && s[i] == '{' {
        spec_var_scan(s, i, i + 1)
    } else {
        None
    }
}

/// All variable markers at or after `i`, leftmost first and
/// non-overlapping.
pub open spec fn spec_var_matches(s: Seq<char>, i: int) -> Seq<SpecVarMatch>
    decreases s.len() - i,
{
    if i >= s.len() {
        Seq::empty()
    } else {
        match spec_try_var(s, i) {
            Some((end, expr, fmt, args)) => if i < end && end <= s.len() {
                seq![SpecVarMatch { start: i, end, expr, format: fmt, args }]
                    + spec_var_matches(s, end)
            } else {
                spec_var_matches(s, i + 1)
            },
            None => spec_var_matches(s, i + 1),
        }
    }
}

/// Whether a variable marker is already represented by an interpolated
/// style marker: same name, and the variable marker lies inside that
/// style marker's span.
pub open spec fn spec_var_skipped(
    styles: Seq<SpecMarker>,
    start: int,
    end: int,
    expr: Seq<char>,
) -> bool {
    exists|j: int|
        0 <= j < styles.len() && spec_is_interp(#[trigger] styles[j].content)
            && spec_interp_name(styles[j].content) == expr && styles[j].start <= start && end
            <= styles[j].end
}

/// Whether an expression is a bare identifier for the purpose of the
/// used-variable report: free of spaces, arithmetic operators and member
/// access.
pub open spec fn spec_is_bare(e: Seq<char>) -> bool {
    !spec_contains_char(e, ' ') && !spec_contains_char(e, '*') && !spec_contains_char(e, '+')
        && !spec_contains_char(e, '-') && !spec_contains_char(e, '/') && !spec_contains_char(
        e,
        '.',
    )
}

/// The interpolated names of the style markers, in marker order.
pub open spec fn spec_interp_names(styles: Seq<SpecMarker>) -> Seq<Seq<char>>
    decreases styles.len(),
{
    if styles.len() == 0 {
        Seq::empty()
    } else {
        (if spec_is_interp(styles[0].content) {
            seq![spec_interp_name(styles[0].content)]
        } else {
            Seq::<Seq<char>>::empty()
        }) + spec_interp_names(styles.drop_first())
    }
}

/// The bare expressions of the variable markers that are not skipped, in
/// marker order.
pub open spec fn spec_var_used(styles: Seq<SpecMarker>, vms: Seq<SpecVarMatch>) -> Seq<Seq<char>>
    decreases vms.len(),
{
    if vms.len() == 0 {
        Seq::empty()
    } else {
        (if !spec_var_skipped(styles, vms[0].start, vms[0].end, vms[0].expr) && spec_is_bare(
            vms[0].expr,
        ) {
            seq![vms[0].expr]
        } else {
            Seq::<Seq<char>>::empty()
        }) + spec_var_used(styles, vms.drop_first())
    }
}

/// The identifiers a template mentions: interpolated style names first,
/// then the bare expressions of the surviving variable markers.
pub open spec fn spec_used_vars(s: Seq<char>) -> Seq<Seq<char>> {
    spec_interp_names(spec_style_matches(s, 0)) + spec_var_used(
        spec_style_matches(s, 0),
        spec_var_matches(s, 0),
    )
}

/// The classified style markers with their spans.
pub open spec fn spec_style_positioned(s: Seq<char>) -> Seq<SpecPositioned> {
    spec_style_matches(s, 0).map_values(
        |m: SpecMarker|
            SpecPositioned { start: m.start, end: m.end, token: spec_classify_style(m.content) },
    )
}

/// The surviving variable markers as positioned tokens, arguments split
/// on commas and trimmed.
pub open spec fn spec_var_tokens(styles: Seq<SpecMarker>, vms: Seq<SpecVarMatch>) -> Seq<
    SpecPositioned,
>
    decreases vms.len(),
{
    if vms.len() == 0 {
        Seq::empty()
    } else {
        let vm = vms[0];
        (if spec_var_skipped(styles, vm.start, vm.end, vm.expr) {
            Seq::<SpecPositioned>::empty()
        } else {
            seq![
                SpecPositioned {
                    start: vm.start,
                    end: vm.end,
                    token: TokenModel::Variable {
                        name: vm.expr,
                        format: vm.format,
                        format_args: match vm.args {
                            Some(a) => Some(spec_split_trim(a)),
                            None => None,
                        },
                    },
                },
            ]
        }) + spec_var_tokens(styles, vms.drop_first())
    }
}

/// The two marker families merged by start position; starts never tie,
/// since one family opens with `@` and the other with `{`.
pub open spec fn spec_merge(a: Seq<SpecPositioned>, b: Seq<SpecPositioned>) -> Seq<SpecPositioned>
    decreases a.len() + b.len(),
{
    if a.len() == 0 {
        b
    } else if b.len() == 0 {
        a
    } else if a[0].start <= b[0].start {
        seq![a[0]] + spec_merge(a.drop_first(), b)
    } else {
        seq![b[0]] + spec_merge(a, b.drop_first())
    }
}

/// The token sequence: each positioned token preceded by the literal
/// text since the previous marker's end, and the trailing text last.
pub open spec fn spec_gap_fill(s: Seq<char>, ms: Seq<SpecPositioned>, last: int) -> Seq<TokenModel>
    decreases ms.len(),
{
    if ms.len() == 0 {
        if last < s.len() {
            seq![TokenModel::Text { content: s.subrange(last, s.len() as int) }]
        } else {
            Seq::empty()
        }
    } else {
        let m = ms[0];
        (if last < m.start {
            seq![TokenModel::Text { content: s.subrange(last, m.start) }]
        } else {
            Seq::<TokenModel>::empty()
        }) + seq![m.token] + spec_gap_fill(s, ms.drop_first(), m.end)
    }
}

/// What the lexer produces for a template.
pub open spec fn spec_parse_tokens(s: Seq<char>) -> Seq<TokenModel> {
    spec_gap_fill(
        s,
        spec_merge(
            spec_style_positioned(s),
            spec_var_tokens(spec_style_matches(s, 0), spec_var_matches(s, 0)),
        ),
        0,
    )
}

/// The marker view of a collected `(start, end, content)` vector.
pub open spec fn spec_markers_of(v: Seq<(usize, usize, Seq<char>)>) -> Seq<SpecMarker> {
    Seq::new(
        v.len(),
        |i: int| SpecMarker { start: v[i].0 as int, end: v[i].1 as int, content: v[i].2 },
    )
}

/// The positioned-token view of a collected `(start, end, token)`
/// vector.
pub open spec fn spec_positioned_of(v: Seq<(usize, usize, TokenModel)>) -> Seq<SpecPositioned> {
    Seq::new(
        v.len(),
        |i: int| SpecPositioned { start: v[i].0 as int, end: v[i].1 as int, token: v[i].2 },
    )
}

/// The variable-marker view of a collected scan vector.
pub open spec fn spec_varms_of(
    v: Seq<(usize, usize, Seq<char>, Option<Seq<char>>, Option<Seq<char>>)>,
) -> Seq<SpecVarMatch> {
    Seq::new(
        v.len(),
        |i: int|
            SpecVarMatch {
                start: v[i].0 as int,
                end: v[i].1 as int,
                expr: v[i].2,
                format: v[i].3,
                args: v[i].4,
            },
    )
}

/// Whether any comma-separated term of `expr` is a known color or style
/// name; an empty expression has none.
pub fn is_style_list(expr: &str) -> (r: bool)
    ensures
        r == spec_is_style_list(expr@),
{
    let n = expr.unicode_len();
    if n == 0 {
        return false;
    }
    let parts = split_commas_trim(expr);
    let ghost pv = parts.deep_view();
    let mut i: usize = 0;
    while i < parts.len()
        invariant
            0 <= i <= parts.len(),
            pv == parts.deep_view(),
            pv == spec_split_trim(expr@),
            forall|j: int| 0 <= j < i ==> spec_sgr_code(#[trigger] pv[j]) is None,
        decreases parts.len() - i,
    {
        proof {
            assert(pv[i as int] == parts[i as int]@);
        }
        let looked = lookup_code(parts[i].as_str());
        if looked.is_some() {
            return true;
        }
        i = i + 1;
    }
    false
}

/// Classifies the raw content of one style marker.
fn classify_style_content(content: &str) -> (t: FormatToken)
    ensures
        t@ == spec_classify_style(content@),
{
    let n = content.unicode_len();
    if n == 0 {
        return FormatToken::StyleReset;
    }
    let tr = trim_str(content);
    let tn = tr.as_str().unicode_len();
    if tn >= 2 && tr.as_str().get_char(0) == '{' && tr.as_str().get_char(tn - 1) == '}' {
        let inner = substr(tr.as_str(), 1, tn - 1);
        if !contains_char(inner.as_str(), '{') && !contains_char(inner.as_str(), '}') {
            return FormatToken::StyleVariable { name: inner };
        }
    }
    if is_style_list(content) {
        let specs = split_commas_trim(content);
        return FormatToken::StyleChange { style_specs: specs };
    }
    FormatToken::StyleVariable { name: tr }
}

/// The interpolated name of one style marker's content, when the content
/// is an interpolation.
fn interp_name_of(content: &str) -> (r: Option<String>)
    ensures
        match r {
            Some(nm) => spec_is_interp(content@) && nm@ == spec_interp_name(content@),
            None => !spec_is_interp(content@),
        },
{
    let tr = trim_str(content);
    let tn = tr.as_str().unicode_len();
    if tn >= 2 && tr.as_str().get_char(0) == '{' && tr.as_str().get_char(tn - 1) == '}' {
        let inner = substr(tr.as_str(), 1, tn - 1);
        if !contains_char(inner.as_str(), '{') && !contains_char(inner.as_str(), '}') {
            return Some(inner);
        }
    }
    None
}

/// Scans the whole template for style markers.
fn scan_style_markers(s: &str) -> (r: Vec<(usize, usize, String)>)
    ensures
        spec_markers_of(r.deep_view()) == spec_style_matches(s@, 0),
        forall|j: int|
            0 <= j < r.deep_view().len() ==> ((#[trigger] r.deep_view()[j]).0
                < r.deep_view()[j].1 <= s@.len()),
{
    let n = s.unicode_len();
    let mut out: Vec<(usize, usize, String)> = Vec::new();
    proof {
        assert(spec_markers_of(out.deep_view()) =~= Seq::<SpecMarker>::empty());
        assert(Seq::<SpecMarker>::empty() + spec_style_matches(s@, 0) =~= spec_style_matches(
            s@,
            0,
        ));
    }
    let mut i: usize = 0;
    while i < n
        invariant
            0 <= i <= n,
            spec_style_matches(s@, 0) == spec_markers_of(out.deep_view())
                + spec_style_matches(s@, i as int),
            forall|j: int|
                0 <= j < out.deep_view().len() ==> ((#[trigger] out.deep_view()[j]).0
                    < out.deep_view()[j].1 <= n),
        decreases n - i,
    {
        let ghost pre = out.deep_view();
        let mut matched = false;
        if s.get_char(i) == '@' && i + 1 < n {
            if s.get_char(i + 1) == '(' {
                let k = find_char_from(s, i + 2, ')');
                if k < n {
                    let content = substr(s, i + 2, k);
                    let ghost cv = content@;
                    out.push((i, k + 1, content));
                    proof {
                        assert(out.deep_view() =~= pre.push((i, (k + 1) as usize, cv)));
                        assert(spec_markers_of(out.deep_view()) =~= spec_markers_of(pre).push(
                            SpecMarker { start: i as int, end: k + 1, content: cv },
                        ));
                        assert(spec_markers_of(pre).push(
                            SpecMarker { start: i as int, end: k + 1, content: cv },
                        ) =~= spec_markers_of(pre) + seq![
                            SpecMarker { start: i as int, end: k + 1, content: cv },
                        ]);
                        assert(spec_style_matches(s@, i as int) == seq![
                            SpecMarker { start: i as int, end: k + 1, content: cv },
                        ] + spec_style_matches(s@, k + 1));
                        assert(spec_markers_of(pre) + (seq![
                            SpecMarker { start: i as int, end: k + 1, content: cv },
                        ] + spec_style_matches(s@, k + 1)) =~= spec_markers_of(out.deep_view())
                            + spec_style_matches(s@, k + 1));
                    }
                    i = k + 1;
                    matched = true;
                }
            }
        }
        if !matched {
            proof {
                assert(!spec_is_style_start(s@, i as int));
            }
            i = i + 1;
        }
    }
    proof {
        assert(spec_style_matches(s@, n as int) =~= Seq::<SpecMarker>::empty());
        assert(spec_markers_of(out.deep_view()) + Seq::<SpecMarker>::empty()
            =~= spec_markers_of(out.deep_view()));
    }
    out
}

/// End of the maximal format-specifier run from `from`.
fn find_fmt_end(s: &str, from: usize) -> (r: usize)
    requires
        from <= s@.len(),
    ensures
        from <= r <= s@.len(),
        r == spec_fmt_run_end(s@, from as int),
    decreases s@.len() - from,
{
    let n = s.unicode_len();
    let mut i = from;
    while i < n
        invariant
            from <= i <= n,
            spec_fmt_run_end(s@, from as int) == spec_fmt_run_end(s@, i as int),
        decreases n - i,
    {
        let c = s.get_char(i);
        if c == '{' || c == '}' || c == '(' {
            return i;
        }
        i = i + 1;
    }
    i
}

/// The variable marker starting at the opening brace `i`, when one
/// matches there.
fn try_var_match(s: &str, i: usize) -> (r: Option<
    (usize, String, Option<String>, Option<String>),
>)
    requires
        i < s@.len(),
        s@[i as int] == '{',
    ensures
        match r {
            Some(m) => {
                &&& spec_try_var(s@, i as int) == Some(
                    (m.0 as int, m.1@, m.2.deep_view(), m.3.deep_view()),
                )
                &&& i < m.0 <= s@.len()
            },
            None => spec_try_var(s@, i as int) is None,
        },
{
    let n = s.unicode_len();
    let mut k = i + 1;
    while k < n
        invariant
            i + 1 <= k <= n,
            i < n,
            spec_var_scan(s@, i as int, i + 1) == spec_var_scan(s@, i as int, k as int),
        decreases n - k,
    {
        let c = s.get_char(k);
        if c == '{' {
            return None;
        } else if c == '}' {
            if k > i + 1 {
                let expr = substr(s, i + 1, k);
                return Some((k + 1, expr, None, None));
            } else {
                return None;
            }
        } else if c == ':' && k > i + 1 {
            let m = find_fmt_end(s, k + 1);
            if m == k + 1 {
                // empty format part: the colon joins the expression
            } else if m < n && s.get_char(m) == '}' {
                let expr = substr(s, i + 1, k);
                let fmt = substr(s, k + 1, m);
                return Some((m + 1, expr, Some(fmt), None));
            } else if m < n && s.get_char(m) == '(' {
                let p = find_char_from(s, m + 1, ')');
                if n - p > 1 && s.get_char(p + 1) == '}' {
                    let expr = substr(s, i + 1, k);
                    let fmt = substr(s, k + 1, m);
                    let args = substr(s, m + 1, p);
                    return Some((p + 2, expr, Some(fmt), Some(args)));
                }
            }
        }
        k = k + 1;
    }
    None
}

/// Scans the whole template for variable markers.
fn scan_var_matches(s: &str) -> (r: Vec<(usize, usize, String, Option<String>, Option<String>)>)
    ensures
        spec_varms_of(r.deep_view()) == spec_var_matches(s@, 0),
        forall|j: int|
            0 <= j < r.deep_view().len() ==> ((#[trigger] r.deep_view()[j]).0
                < r.deep_view()[j].1 <= s@.len()),
{
    let n = s.unicode_len();
    let mut out: Vec<(usize, usize, String, Option<String>, Option<String>)> = Vec::new();
    proof {
        assert(spec_varms_of(out.deep_view()) =~= Seq::<SpecVarMatch>::empty());
        assert(Seq::<SpecVarMatch>::empty() + spec_var_matches(s@, 0) =~= spec_var_matches(
            s@,
            0,
        ));
    }
    let mut i: usize = 0;
    while i < n
        invariant
            0 <= i <= n,
            spec_var_matches(s@, 0) == spec_varms_of(out.deep_view()) + spec_var_matches(
                s@,
                i as int,
            ),
            forall|j: int|
                0 <= j < out.deep_view().len() ==> ((#[trigger] out.deep_view()[j]).0
                    < out.deep_view()[j].1 <= n),
        decreases n - i,
    {
        let ghost pre = out.deep_view();
        let mut advanced = false;
        if s.get_char(i) == '{' {
            let m = try_var_match(s, i);
            match m {
                Some((end, expr, fmt, args)) => {
                    let ghost ev = expr@;
                    let ghost fv = fmt.deep_view();
                    let ghost av = args.deep_view();
                    out.push((i, end, expr, fmt, args));
                    proof {
                        let vm = SpecVarMatch {
                            start: i as int,
                            end: end as int,
                            expr: ev,
                            format: fv,
                            args: av,
                        };
                        assert(out.deep_view() =~= pre.push((i, end, ev, fv, av)));
                        assert(spec_varms_of(out.deep_view()) =~= spec_varms_of(pre).push(vm));
                        assert(spec_varms_of(pre).push(vm) =~= spec_varms_of(pre) + seq![vm]);
                        assert(spec_var_matches(s@, i as int) == seq![vm] + spec_var_matches(
                            s@,
                            end as int,
                        ));
                        assert(spec_varms_of(pre) + (seq![vm] + spec_var_matches(s@, end as int))
                            =~= spec_varms_of(out.deep_view()) + spec_var_matches(
                            s@,
                            end as int,
                        ));
                    }
                    i = end;
                    advanced = true;
                },
                None => {},
            }
        }
        if !advanced {
            proof {
                assert(spec_try_var(s@, i as int) is None);
            }
            i = i + 1;
        }
    }
    proof {
        assert(spec_var_matches(s@, n as int) =~= Seq::<SpecVarMatch>::empty());
        assert(spec_varms_of(out.deep_view()) + Seq::<SpecVarMatch>::empty() =~= spec_varms_of(
            out.deep_view(),
        ));
    }
    out
}

/// Whether an expression counts as a bare identifier for the
/// used-variable report.
fn is_bare_expr(e: &str) -> (r: bool)
    ensures
        r == spec_is_bare(e@),
{
    !contains_char(e, ' ') && !contains_char(e, '*') && !contains_char(e, '+') && !contains_char(
        e,
        '-',
    ) && !contains_char(e, '/') && !contains_char(e, '.')
}

/// Whether the variable marker `(start, end, expr)` is consumed by an
/// interpolated style marker around it.
fn is_skipped(
    markers: &Vec<(usize, usize, String)>,
    interp: &Vec<Option<String>>,
    start: usize,
    end: usize,
    expr: &str,
) -> (r: bool)
    requires
        interp.len() == markers.len(),
        forall|j: int|
            0 <= j < interp.len() ==> match #[trigger] interp.deep_view()[j] {
                Some(nm) => spec_is_interp(markers.deep_view()[j].2) && nm == spec_interp_name(
                    markers.deep_view()[j].2,
                ),
                None => !spec_is_interp(markers.deep_view()[j].2),
            },
    ensures
        r == spec_var_skipped(
            spec_markers_of(markers.deep_view()),
            start as int,
            end as int,
            expr@,
        ),
{
    let ghost sm = spec_markers_of(markers.deep_view());
    let mut j: usize = 0;
    while j < markers.len()
        invariant
            0 <= j <= markers.len(),
            interp.len() == markers.len(),
            sm == spec_markers_of(markers.deep_view()),
            forall|jj: int|
                0 <= jj < interp.len() ==> match #[trigger] interp.deep_view()[jj] {
                    Some(nm) => spec_is_interp(markers.deep_view()[jj].2) && nm
                        == spec_interp_name(markers.deep_view()[jj].2),
                    None => !spec_is_interp(markers.deep_view()[jj].2),
                },
            forall|jj: int|
                0 <= jj < j ==> !(spec_is_interp(#[trigger] sm[jj].content) && spec_interp_name(
                    sm[jj].content,
                ) == expr@ && sm[jj].start <= start as int && end as int <= sm[jj].end),
        decreases markers.len() - j,
    {
        proof {
            assert(interp.deep_view()[j as int] == interp[j as int].deep_view());
            assert(markers.deep_view()[j as int].2 == markers[j as int].2@);
            assert(sm[j as int].content == markers.deep_view()[j as int].2);
            assert(sm[j as int].start == markers.deep_view()[j as int].0 as int);
            assert(sm[j as int].end == markers.deep_view()[j as int].1 as int);
        }
        match &interp[j] {
            Some(nm) => {
                if str_eq(nm.as_str(), expr) && markers[j].0 <= start && end <= markers[j].1 {
                    return true;
                }
            },
            None => {},
        }
        j = j + 1;
    }
    false
}

/// Merges the two positioned-token families by start position.
fn merge_positioned(
    a: Vec<(usize, usize, FormatToken)>,
    b: Vec<(usize, usize, FormatToken)>,
) -> (r: Vec<(usize, usize, FormatToken)>)
    ensures
        spec_positioned_of(r.deep_view()) == spec_merge(
            spec_positioned_of(a.deep_view()),
            spec_positioned_of(b.deep_view()),
        ),
        forall|j: int|
            0 <= j < r.deep_view().len() ==> exists|jj: int|
                (0 <= jj < a.deep_view().len() && #[trigger] r.deep_view()[j]
                    == a.deep_view()[jj]) || (0 <= jj < b.deep_view().len()
                    && r.deep_view()[j] == b.deep_view()[jj]),
{
    let ghost a0 = a.deep_view();
    let ghost b0 = b.deep_view();
    let mut a = a;
    let mut b = b;
    let mut out: Vec<(usize, usize, FormatToken)> = Vec::new();
    proof {
        assert(spec_positioned_of(out.deep_view()) =~= Seq::<SpecPositioned>::empty());
        assert(Seq::<SpecPositioned>::empty() + spec_merge(
            spec_positioned_of(a0),
            spec_positioned_of(b0),
        ) =~= spec_merge(spec_positioned_of(a0), spec_positioned_of(b0)));
    }
    while a.len() > 0 || b.len() > 0
        invariant
            spec_merge(spec_positioned_of(a0), spec_positioned_of(b0)) == spec_positioned_of(
                out.deep_view(),
            ) + spec_merge(spec_positioned_of(a.deep_view()), spec_positioned_of(b.deep_view())),
            forall|j: int|
                0 <= j < a.deep_view().len() ==> exists|jj: int|
                    0 <= jj < a0.len() && #[trigger] a.deep_view()[j] == a0[jj],
            forall|j: int|
                0 <= j < b.deep_view().len() ==> exists|jj: int|
                    0 <= jj < b0.len() && #[trigger] b.deep_view()[j] == b0[jj],
            forall|j: int|
                0 <= j < out.deep_view().len() ==> exists|jj: int|
                    (0 <= jj < a0.len() && #[trigger] out.deep_view()[j] == a0[jj]) || (0 <= jj
                        < b0.len() && out.deep_view()[j] == b0[jj]),
        decreases a.len() + b.len(),
    {
        let ghost av = a.deep_view();
        let ghost bv = b.deep_view();
        let ghost ov = out.deep_view();
        let take_a = if a.len() == 0 {
            false
        } else if b.len() == 0 {
            true
        } else {
            a[0].0 <= b[0].0
        };
        if take_a {
            let x = a.remove(0);
            let ghost xv = x.deep_view();
            out.push(x);
            proof {
                assert(xv == av[0]);
                assert(out.deep_view() =~= ov.push(xv));
                assert(a.deep_view() =~= av.drop_first());
                assert(spec_positioned_of(av).drop_first() =~= spec_positioned_of(
                    av.drop_first(),
                ));
                assert(spec_positioned_of(out.deep_view()) =~= spec_positioned_of(ov).push(
                    spec_positioned_of(av)[0],
                ));
                assert(spec_positioned_of(ov).push(spec_positioned_of(av)[0])
                    =~= spec_positioned_of(ov) + seq![spec_positioned_of(av)[0]]);
                if bv.len() > 0 {
                    assert(spec_merge(spec_positioned_of(av), spec_positioned_of(bv)) == seq![
                        spec_positioned_of(av)[0],
                    ] + spec_merge(spec_positioned_of(av).drop_first(), spec_positioned_of(bv)));
                } else {
                    assert(spec_positioned_of(bv) =~= Seq::<SpecPositioned>::empty());
                    assert(spec_merge(spec_positioned_of(av), spec_positioned_of(bv))
                        =~= spec_positioned_of(av));
                    assert(spec_positioned_of(av) =~= seq![spec_positioned_of(av)[0]]
                        + spec_merge(
                        spec_positioned_of(av).drop_first(),
                        spec_positioned_of(bv),
                    ));
                }
                assert(spec_positioned_of(ov) + (seq![spec_positioned_of(av)[0]] + spec_merge(
                    spec_positioned_of(av).drop_first(),
                    spec_positioned_of(bv),
                )) =~= spec_positioned_of(out.deep_view()) + spec_merge(
                    spec_positioned_of(a.deep_view()),
                    spec_positioned_of(bv),
                ));
            }
        } else {
            let x = b.remove(0);
            let ghost xv = x.deep_view();
            out.push(x);
            proof {
                assert(xv == bv[0]);
                assert(out.deep_view() =~= ov.push(xv));
                assert(b.deep_view() =~= bv.drop_first());
                assert(spec_positioned_of(bv).drop_first() =~= spec_positioned_of(
                    bv.drop_first(),
                ));
                assert(spec_positioned_of(out.deep_view()) =~= spec_positioned_of(ov).push(
                    spec_positioned_of(bv)[0],
                ));
                assert(spec_positioned_of(ov).push(spec_positioned_of(bv)[0])
                    =~= spec_positioned_of(ov) + seq![spec_positioned_of(bv)[0]]);
                if av.len() > 0 {
                    assert(spec_merge(spec_positioned_of(av), spec_positioned_of(bv)) == seq![
                        spec_positioned_of(bv)[0],
                    ] + spec_merge(spec_positioned_of(av), spec_positioned_of(bv).drop_first()));
                } else {
                    assert(spec_positioned_of(av) =~= Seq::<SpecPositioned>::empty());
                    assert(spec_merge(spec_positioned_of(av), spec_positioned_of(bv))
                        =~= spec_positioned_of(bv));
                    assert(spec_positioned_of(bv) =~= seq![spec_positioned_of(bv)[0]]
                        + spec_merge(
                        spec_positioned_of(av),
                        spec_positioned_of(bv).drop_first(),
                    ));
                }
                assert(spec_positioned_of(ov) + (seq![spec_positioned_of(bv)[0]] + spec_merge(
                    spec_positioned_of(av),
                    spec_positioned_of(bv).drop_first(),
                )) =~= spec_positioned_of(out.deep_view()) + spec_merge(
                    spec_positioned_of(av),
                    spec_positioned_of(b.deep_view()),
                ));
            }
        }
    }
    proof {
        assert(spec_positioned_of(a.deep_view()) =~= Seq::<SpecPositioned>::empty());
        assert(spec_positioned_of(b.deep_view()) =~= Seq::<SpecPositioned>::empty());
        assert(spec_merge(
            spec_positioned_of(a.deep_view()),
            spec_positioned_of(b.deep_view()),
        ) =~= Seq::<SpecPositioned>::empty());
        assert(spec_positioned_of(out.deep_view()) + Seq::<SpecPositioned>::empty()
            =~= spec_positioned_of(out.deep_view()));
    }
    out
}

/// Scans a template into its token sequence and the identifiers it
/// mentions.
#[verifier::rlimit(100)]
pub fn parse_format_string(fmt_str: &str) -> (r: (Vec<FormatToken>, Vec<String>))
    ensures
        r.0.deep_view() == spec_parse_tokens(fmt_str@),
        r.1.deep_view() == spec_used_vars(fmt_str@),
{
    let n = fmt_str.unicode_len();
    let markers = scan_style_markers(fmt_str);
    let ghost mv = markers.deep_view();
    let ghost sm = spec_markers_of(mv);

    // Classify the style markers and collect their interpolated names.
    let mut styles_pos: Vec<(usize, usize, FormatToken)> = Vec::new();
    let mut interp: Vec<Option<String>> = Vec::new();
    let mut used_vars: Vec<String> = Vec::new();
    proof {
        assert(spec_style_positioned(fmt_str@) =~= sm.map_values(
            |m: SpecMarker|
                SpecPositioned {
                    start: m.start,
                    end: m.end,
                    token: spec_classify_style(m.content),
                },
        ));
        assert(spec_positioned_of(styles_pos.deep_view()) =~= spec_style_positioned(
            fmt_str@,
        ).subrange(0, 0));
        assert(used_vars.deep_view() + spec_interp_names(sm.subrange(0, sm.len() as int))
            =~= spec_interp_names(sm.subrange(0, sm.len() as int)));
        assert(sm.subrange(0, sm.len() as int) =~= sm);
    }
    let mut i: usize = 0;
    while i < markers.len()
        invariant
            0 <= i <= markers.len(),
            mv == markers.deep_view(),
            sm == spec_markers_of(mv),
            sm.len() == mv.len(),
            forall|j: int| 0 <= j < mv.len() ==> ((#[trigger] mv[j]).0 < mv[j].1 <= n),
            n == fmt_str@.len(),
            interp.len() == i,
            forall|j: int|
                0 <= j < i ==> match #[trigger] interp.deep_view()[j] {
                    Some(nm) => spec_is_interp(mv[j].2) && nm == spec_interp_name(mv[j].2),
                    None => !spec_is_interp(mv[j].2),
                },
            spec_positioned_of(styles_pos.deep_view()) == spec_style_positioned(
                fmt_str@,
            ).subrange(0, i as int),
            styles_pos.len() == i,
            forall|j: int|
                0 <= j < i ==> #[trigger] styles_pos.deep_view()[j].0 == mv[j].0
                    && styles_pos.deep_view()[j].1 == mv[j].1,
            used_vars.deep_view() + spec_interp_names(sm.subrange(i as int, sm.len() as int))
                == spec_interp_names(sm),
        decreases markers.len() - i,
    {
        let ghost pre_sp = styles_pos.deep_view();
        let ghost pre_uv = used_vars.deep_view();
        proof {
            assert(mv[i as int].2 == markers[i as int].2@);
            assert(sm[i as int].content == mv[i as int].2);
            assert(sm[i as int].start == mv[i as int].0 as int);
            assert(sm[i as int].end == mv[i as int].1 as int);
        }
        let token = classify_style_content(markers[i].2.as_str());
        let ghost tokv = token@;
        let s0 = markers[i].0;
        let e0 = markers[i].1;
        styles_pos.push((s0, e0, token));
        proof {
            assert(styles_pos.deep_view() =~= pre_sp.push((s0, e0, tokv)));
            assert(spec_positioned_of(styles_pos.deep_view()) =~= spec_positioned_of(
                pre_sp,
            ).push(
                SpecPositioned {
                    start: s0 as int,
                    end: e0 as int,
                    token: spec_classify_style(sm[i as int].content),
                },
            ));
            assert(spec_style_positioned(fmt_str@)[i as int] == SpecPositioned {
                start: sm[i as int].start,
                end: sm[i as int].end,
                token: spec_classify_style(sm[i as int].content),
            });
            assert(spec_positioned_of(styles_pos.deep_view()) =~= spec_style_positioned(
                fmt_str@,
            ).subrange(0, i + 1));
        }
        let nm_opt = interp_name_of(markers[i].2.as_str());
        let ghost pre_interp = interp.deep_view();
        proof {
            assert(sm.subrange(i as int, sm.len() as int)[0] == sm[i as int]);
            assert(sm.subrange(i as int, sm.len() as int).drop_first() =~= sm.subrange(
                i + 1,
                sm.len() as int,
            ));
        }
        match nm_opt {
            Some(nm) => {
                let nm2 = nm.clone();
                let ghost nmv = nm@;
                used_vars.push(nm);
                interp.push(Some(nm2));
                proof {
                    assert(interp.deep_view() =~= pre_interp.push(Some(nmv)));
                    assert(used_vars.deep_view() =~= pre_uv.push(nmv));
                    assert(pre_uv.push(nmv) =~= pre_uv + seq![nmv]);
                    assert(used_vars.deep_view() + spec_interp_names(
                        sm.subrange(i + 1, sm.len() as int),
                    ) =~= pre_uv + spec_interp_names(sm.subrange(i as int, sm.len() as int)));
                }
            },
            None => {
                interp.push(None);
                proof {
                    assert(interp.deep_view() =~= pre_interp.push(None));
                    assert(used_vars.deep_view() + spec_interp_names(
                        sm.subrange(i + 1, sm.len() as int),
                    ) =~= pre_uv + spec_interp_names(sm.subrange(i as int, sm.len() as int)));
                }
            },
        }
        i = i + 1;
    }
    proof {
        assert(spec_style_positioned(fmt_str@).subrange(
            0,
            spec_style_positioned(fmt_str@).len() as int,
        ) =~= spec_style_positioned(fmt_str@));
        assert(sm.subrange(sm.len() as int, sm.len() as int) =~= Seq::<SpecMarker>::empty());
        assert(spec_interp_names(Seq::<SpecMarker>::empty()) =~= Seq::<Seq<char>>::empty());
        assert(used_vars.deep_view() + Seq::<Seq<char>>::empty() =~= used_vars.deep_view());
    }

    // Scan the variable markers, drop the ones an interpolated style
    // marker already consumed, and record the bare identifiers.
    let vms = scan_var_matches(fmt_str);
    let ghost svm = spec_varms_of(vms.deep_view());
    let mut var_pos: Vec<(usize, usize, FormatToken)> = Vec::new();
    let mut rest = vms;
    let ghost mut consumed: int = 0;
    proof {
        assert(spec_varms_of(rest.deep_view()) =~= svm.subrange(0, svm.len() as int));
        assert(spec_positioned_of(var_pos.deep_view()) + spec_var_tokens(sm, svm)
            =~= spec_var_tokens(sm, svm));
        assert(used_vars.deep_view() + spec_var_used(sm, svm) =~= spec_interp_names(sm)
            + spec_var_used(sm, svm));
    }
    while rest.len() > 0
        invariant
            0 <= consumed <= svm.len(),
            mv == markers.deep_view(),
            sm == spec_markers_of(mv),
            n == fmt_str@.len(),
            interp.len() == markers.len(),
            forall|j: int|
                0 <= j < interp.len() ==> match #[trigger] interp.deep_view()[j] {
                    Some(nm) => spec_is_interp(mv[j].2) && nm == spec_interp_name(mv[j].2),
                    None => !spec_is_interp(mv[j].2),
                },
            spec_varms_of(rest.deep_view()) == svm.subrange(consumed, svm.len() as int),
            forall|j: int|
                0 <= j < rest.deep_view().len() ==> ((#[trigger] rest.deep_view()[j]).0
                    < rest.deep_view()[j].1 <= n),
            spec_positioned_of(var_pos.deep_view()) + spec_var_tokens(
                sm,
                svm.subrange(consumed, svm.len() as int),
            ) == spec_var_tokens(sm, svm),
            forall|j: int|
                0 <= j < var_pos.deep_view().len() ==> ((#[trigger] var_pos.deep_view()[j]).0
                    < var_pos.deep_view()[j].1 <= n),
            used_vars.deep_view() + spec_var_used(sm, svm.subrange(consumed, svm.len() as int))
                == spec_interp_names(sm) + spec_var_used(sm, svm),
        decreases rest.len(),
    {
        let ghost restv = rest.deep_view();
        let ghost pre_vp = var_pos.deep_view();
        let ghost pre_uv = used_vars.deep_view();
        let ghost tail = svm.subrange(consumed, svm.len() as int);
        let vm = rest.remove(0);
        let ghost vmv = vm.deep_view();
        let (vs, ve, expr, fmt, args) = vm;
        proof {
            assert(vmv == restv[0]);
            assert(restv[0].0 == vs && restv[0].1 == ve);
            assert(rest.deep_view() =~= restv.drop_first());
            assert(spec_varms_of(restv.drop_first()) =~= spec_varms_of(restv).drop_first());
            assert(tail.drop_first() =~= svm.subrange(consumed + 1, svm.len() as int));
            assert(tail[0] == SpecVarMatch {
                start: vs as int,
                end: ve as int,
                expr: expr@,
                format: fmt.deep_view(),
                args: args.deep_view(),
            });
        }
        let skipped = is_skipped(&markers, &interp, vs, ve, expr.as_str());
        if !skipped {
            if is_bare_expr(expr.as_str()) {
                let e2 = expr.clone();
                used_vars.push(e2);
                proof {
                    assert(used_vars.deep_view() =~= pre_uv.push(expr@));
                    assert(pre_uv.push(expr@) =~= pre_uv + seq![expr@]);
                }
            }
            let ghost fmtv = fmt.deep_view();
            let ghost argsv = args.deep_view();
            let fargs: Option<Vec<String>> = match args {
                Some(a) => Some(split_commas_trim(a.as_str())),
                None => None,
            };
            let token = FormatToken::Variable { name: expr, format: fmt, format_args: fargs };
            let ghost tokv = token@;
            var_pos.push((vs, ve, token));
            proof {
                assert(var_pos.deep_view() =~= pre_vp.push((vs, ve, tokv)));
                assert(spec_positioned_of(var_pos.deep_view()) =~= spec_positioned_of(
                    pre_vp,
                ).push(SpecPositioned { start: vs as int, end: ve as int, token: tokv }));
                assert(tokv == TokenModel::Variable {
                    name: tail[0].expr,
                    format: tail[0].format,
                    format_args: match tail[0].args {
                        Some(a) => Some(spec_split_trim(a)),
                        None => None,
                    },
                });
                assert(spec_positioned_of(pre_vp).push(
                    SpecPositioned { start: vs as int, end: ve as int, token: tokv },
                ) =~= spec_positioned_of(pre_vp) + seq![
                    SpecPositioned { start: vs as int, end: ve as int, token: tokv },
                ]);
                assert(spec_positioned_of(var_pos.deep_view()) + spec_var_tokens(
                    sm,
                    tail.drop_first(),
                ) =~= spec_positioned_of(pre_vp) + spec_var_tokens(sm, tail));
                assert(used_vars.deep_view() + spec_var_used(sm, tail.drop_first()) =~= pre_uv
                    + spec_var_used(sm, tail));
            }
        } else {
            proof {
                assert(spec_var_tokens(sm, tail) =~= spec_var_tokens(sm, tail.drop_first()));
                assert(spec_var_used(sm, tail) =~= spec_var_used(sm, tail.drop_first()));
            }
        }
        proof {
            consumed = consumed + 1;
        }
    }
    proof {
        assert(svm.subrange(consumed, svm.len() as int) =~= Seq::<SpecVarMatch>::empty());
        assert(spec_var_tokens(sm, Seq::<SpecVarMatch>::empty()) =~= Seq::<
            SpecPositioned,
        >::empty());
        assert(spec_var_used(sm, Seq::<SpecVarMatch>::empty()) =~= Seq::<Seq<char>>::empty());
        assert(spec_positioned_of(var_pos.deep_view()) + Seq::<SpecPositioned>::empty()
            =~= spec_positioned_of(var_pos.deep_view()));
        assert(used_vars.deep_view() + Seq::<Seq<char>>::empty() =~= used_vars.deep_view());
        assert(used_vars.deep_view() =~= spec_used_vars(fmt_str@));
    }

    // Merge the families by position and fill the gaps with text.
    let ghost spv = styles_pos.deep_view();
    let ghost vpv = var_pos.deep_view();
    proof {
        assert(forall|j: int| 0 <= j < spv.len() ==> #[trigger] spv[j].0 < spv[j].1 <= n);
    }
    let merged = merge_positioned(styles_pos, var_pos);
    let ghost mg = spec_positioned_of(merged.deep_view());
    proof {
        assert(spec_positioned_of(spv) =~= spec_style_positioned(fmt_str@));
        assert(spec_positioned_of(vpv) =~= spec_var_tokens(sm, svm));
        assert(forall|j: int|
            0 <= j < merged.deep_view().len() ==> #[trigger] merged.deep_view()[j].0
                <= merged.deep_view()[j].1 <= n);
    }
    let mut tokens: Vec<FormatToken> = Vec::new();
    let mut last_pos: usize = 0;
    let mut mrest = merged;
    proof {
        assert(spec_positioned_of(mrest.deep_view()) =~= mg);
        assert(mg == spec_merge(
            spec_style_positioned(fmt_str@),
            spec_var_tokens(spec_style_matches(fmt_str@, 0), spec_var_matches(fmt_str@, 0)),
        ));
        assert(tokens.deep_view() + spec_gap_fill(fmt_str@, mg, 0) =~= spec_gap_fill(
            fmt_str@,
            mg,
            0,
        ));
    }
    while mrest.len() > 0
        invariant
            n == fmt_str@.len(),
            last_pos <= n,
            forall|j: int|
                0 <= j < mrest.deep_view().len() ==> ((#[trigger] mrest.deep_view()[j]).0
                    <= mrest.deep_view()[j].1 <= n),
            tokens.deep_view() + spec_gap_fill(
                fmt_str@,
                spec_positioned_of(mrest.deep_view()),
                last_pos as int,
            ) == spec_gap_fill(fmt_str@, mg, 0),
        decreases mrest.len(),
    {
        let ghost restv = mrest.deep_view();
        let ghost pre_t = tokens.deep_view();
        let m = mrest.remove(0);
        let ghost mv2 = m.deep_view();
        let (ms, me, mtok) = m;
        let ghost mtokv = mtok@;
        proof {
            assert(mv2 == restv[0]);
            assert(restv[0].0 == ms && restv[0].1 == me);
            assert(mrest.deep_view() =~= restv.drop_first());
            assert(spec_positioned_of(restv.drop_first()) =~= spec_positioned_of(
                restv,
            ).drop_first());
            assert(spec_positioned_of(restv)[0] == SpecPositioned {
                start: ms as int,
                end: me as int,
                token: mtokv,
            });
        }
        if ms > last_pos {
            let txt = substr(fmt_str, last_pos, ms);
            let ghost txtv = txt@;
            tokens.push(FormatToken::Text { content: txt });
            tokens.push(mtok);
            proof {
                assert(tokens.deep_view() =~= pre_t.push(TokenModel::Text { content: txtv }).push(
                    mtokv,
                ));
                assert(pre_t.push(TokenModel::Text { content: txtv }).push(mtokv) =~= pre_t
                    + seq![TokenModel::Text { content: txtv }] + seq![mtokv]);
                assert(tokens.deep_view() + spec_gap_fill(
                    fmt_str@,
                    spec_positioned_of(restv).drop_first(),
                    me as int,
                ) =~= pre_t + spec_gap_fill(
                    fmt_str@,
                    spec_positioned_of(restv),
                    last_pos as int,
                ));
            }
        } else {
            tokens.push(mtok);
            proof {
                assert(tokens.deep_view() =~= pre_t.push(mtokv));
                assert(pre_t.push(mtokv) =~= pre_t + seq![mtokv]);
                assert(tokens.deep_view() + spec_gap_fill(
                    fmt_str@,
                    spec_positioned_of(restv).drop_first(),
                    me as int,
                ) =~= pre_t + spec_gap_fill(
                    fmt_str@,
                    spec_positioned_of(restv),
                    last_pos as int,
                ));
            }
        }
        last_pos = me;
    }
    proof {
        assert(spec_positioned_of(mrest.deep_view()) =~= Seq::<SpecPositioned>::empty());
    }
    if last_pos < n {
        let txt = substr(fmt_str, last_pos, n);
        let ghost txtv = txt@;
        let ghost pre_t = tokens.deep_view();
        tokens.push(FormatToken::Text { content: txt });
        proof {
            assert(tokens.deep_view() =~= pre_t.push(TokenModel::Text { content: txtv }));
            assert(pre_t.push(TokenModel::Text { content: txtv }) =~= pre_t + seq![
                TokenModel::Text { content: txtv },
            ]);
            assert(tokens.deep_view() =~= spec_gap_fill(fmt_str@, mg, 0));
        }
    } else {
        proof {
            assert(spec_gap_fill(
                fmt_str@,
                Seq::<SpecPositioned>::empty(),
                last_pos as int,
            ) =~= Seq::<TokenModel>::empty());
            assert(tokens.deep_view() + Seq::<TokenModel>::empty() =~= tokens.deep_view());
        }
    }
    (tokens, used_vars)
}

/// The host-language expression that formats one variable, chosen by its
/// format specifier.
pub open spec fn spec_format_code(
    name: Seq<char>,
    format: Option<Seq<char>>,
    args: Option<Seq<Seq<char>>>,
) -> Seq<char> {
    match format {
        None => "format!(\"{}\", "@ + name + ")"@,
        Some(f) => if f == "a"@ {
            "format_container(&"@ + name + ")"@
        } else if f == "c"@ {
            "format!(\"{:?}\", "@ + name + ")"@
        } else if f == "j"@ {
            "format!(\"{:#?}\", "@ + name + ")"@
        } else if f == "m"@ {
            "format_matrix(&"@ + name + ")"@
        } else if f == "d"@ {
            "format_determinant(&"@ + name + ")"@
        } else if f == "t"@ {
            match args {
                Some(cols) => "format_table(&"@ + name + ", &vec!["@ + spec_join(
                    cols.map_values(|c: Seq<char>| "String::from(\""@ + c + "\")"@),
                    ", "@,
                ) + "], \"bright_blue\")"@,
                None => "format_table(&"@ + name + ", &Vec::<String>::new(), \"bright_blue\")"@,
            }
        } else {
            "format!(\"{:"@ + f + "}\", "@ + name + ")"@
        },
    }
}

/// The code segments one token contributes to the output routine.
pub open spec fn spec_token_segments(t: TokenModel) -> Seq<Seq<char>> {
    match t {
        TokenModel::StyleChange { style_specs } => seq![
            "result.push_str(\"\\x1B[0m\");"@,
            "result.push_str(\""@ + spec_escape(spec_ansi_code(style_specs)) + "\");"@,
        ],
        TokenModel::StyleVariable { name } => seq![
            "result.push_str(\"\\x1B[0m\");"@,
            "let style_specs = "@ + name
                + ".split(',').map(|s| s.trim().to_string()).collect::<Vec<String>>();"@,
            "let ansi = colorstyle_internal::ansi_code_for_style(&style_specs);"@,
            "result.push_str(&ansi);"@,
        ],
        TokenModel::StyleReset => seq!["result.push_str(\"\\x1B[0m\");"@],
        TokenModel::Text { content } => if content.len() == 0 {
            Seq::empty()
        } else {
            seq!["result.push_str(\""@ + spec_escape(content) + "\");"@]
        },
        TokenModel::Variable { name, format, format_args } => seq![
            "result.push_str(&("@ + spec_format_code(name, format, format_args) + "));"@,
        ],
    }
}

/// The segments of a whole token sequence, in order.
pub open spec fn spec_segments_all(tokens: Seq<TokenModel>) -> Seq<Seq<char>>
    decreases tokens.len(),
{
    if tokens.len() == 0 {
        Seq::empty()
    } else {
        spec_token_segments(tokens[0]) + spec_segments_all(tokens.drop_first())
    }
}

/// What the code generator returns: the tokens' segments, then the final
/// reset and the print-and-flush line.
pub open spec fn spec_output_code(tokens: Seq<TokenModel>, no_newline: bool) -> Seq<Seq<char>> {
    spec_segments_all(tokens) + seq![
        "result.push_str(\"\\x1B[0m\");"@,
        (if no_newline {
            "print!(\"{}\", result)"@
        } else {
            "print!(\"{}\n\", result)"@
        }) + "; std::io::stdout().flush().expect(\"Failed to flush stdout\");"@,
    ]
}

/// Builds the formatting expression of one variable token.
fn variable_format_code(
    name: &str,
    format: &Option<String>,
    format_args: &Option<Vec<String>>,
) -> (r: String)
    ensures
        r@ == spec_format_code(name@, format.deep_view(), format_args.deep_view()),
{
    match format {
        None => {
            let mut c = String::from_str("format!(\"{}\", ");
            c.append(name);
            c.append(")");
            proof {
                assert(c@ =~= spec_format_code(name@, None, format_args.deep_view()));
            }
            c
        },
        Some(f) => {
            if str_eq(f.as_str(), "a") {
                let mut c = String::from_str("format_container(&");
                c.append(name);
                c.append(")");
                proof {
                    assert(c@ =~= spec_format_code(
                        name@,
                        format.deep_view(),
                        format_args.deep_view(),
                    ));
                }
                c
            } else if str_eq(f.as_str(), "c") {
                let mut c = String::from_str("format!(\"{:?}\", ");
                c.append(name);
                c.append(")");
                proof {
                    assert(c@ =~= spec_format_code(
                        name@,
                        format.deep_view(),
                        format_args.deep_view(),
                    ));
                }
                c
            } else if str_eq(f.as_str(), "j") {
                let mut c = String::from_str("format!(\"{:#?}\", ");
                c.append(name);
                c.append(")");
                proof {
                    assert(c@ =~= spec_format_code(
                        name@,
                        format.deep_view(),
                        format_args.deep_view(),
                    ));
                }
                c
            } else if str_eq(f.as_str(), "m") {
                let mut c = String::from_str("format_matrix(&");
                c.append(name);
                c.append(")");
                proof {
                    assert(c@ =~= spec_format_code(
                        name@,
                        format.deep_view(),
                        format_args.deep_view(),
                    ));
                }
                c
            } else if str_eq(f.as_str(), "d") {
                let mut c = String::from_str("format_determinant(&");
                c.append(name);
                c.append(")");
                proof {
                    assert(c@ =~= spec_format_code(
                        name@,
                        format.deep_view(),
                        format_args.deep_view(),
                    ));
                }
                c
            } else if str_eq(f.as_str(), "t") {
                match format_args {
                    Some(cols) => {
                        let ghost cv = cols.deep_view();
                        let mut wrapped: Vec<String> = Vec::new();
                        proof {
                            assert(wrapped.deep_view() =~= cv.subrange(0, 0).map_values(
                                |c2: Seq<char>| "String::from(\""@ + c2 + "\")"@,
                            ));
                        }
                        let mut i: usize = 0;
                        while i < cols.len()
                            invariant
                                0 <= i <= cols.len(),
                                cv == cols.deep_view(),
                                wrapped.deep_view() == cv.subrange(0, i as int).map_values(
                                    |c2: Seq<char>| "String::from(\""@ + c2 + "\")"@,
                                ),
                            decreases cols.len() - i,
                        {
                            let ghost pre = wrapped.deep_view();
                            let mut w = String::from_str("String::from(\"");
                            w.append(cols[i].as_str());
                            w.append("\")");
                            let ghost wv = w@;
                            wrapped.push(w);
                            proof {
                                assert(cv[i as int] == cols[i as int]@);
                                assert(wrapped.deep_view() =~= pre.push(wv));
                                assert(cv.subrange(0, i + 1) =~= cv.subrange(0, i as int).push(
                                    cv[i as int],
                                ));
                                assert(wrapped.deep_view() =~= cv.subrange(0, i + 1).map_values(
                                    |c2: Seq<char>| "String::from(\""@ + c2 + "\")"@,
                                ));
                            }
                            i = i + 1;
                        }
                        proof {
                            assert(cv.subrange(0, cv.len() as int) =~= cv);
                        }
                        let mut c = String::from_str("format_table(&");
                        c.append(name);
                        c.append(", &vec![");
                        push_join(&mut c, &wrapped, ", ");
                        c.append("], \"bright_blue\")");
                        proof {
                            assert(c@ =~= spec_format_code(
                                name@,
                                format.deep_view(),
                                format_args.deep_view(),
                            ));
                        }
                        c
                    },
                    None => {
                        let mut c = String::from_str("format_table(&");
                        c.append(name);
                        c.append(", &Vec::<String>::new(), \"bright_blue\")");
                        proof {
                            assert(c@ =~= spec_format_code(
                                name@,
                                format.deep_view(),
                                format_args.deep_view(),
                            ));
                        }
                        c
                    },
                }
            } else {
                let mut c = String::from_str("format!(\"{:");
                c.append(f.as_str());
                c.append("}\", ");
                c.append(name);
                c.append(")");
                proof {
                    assert(c@ =~= spec_format_code(
                        name@,
                        format.deep_view(),
                        format_args.deep_view(),
                    ));
                }
                c
            }
        },
    }
}

/// Turns a token sequence into the lines of an output routine: per-token
/// buffer appends, a final style reset, and a print of the buffer with or
/// without a trailing newline, followed by a flush.
#[verifier::rlimit(100)]
pub fn generate_output_code(tokens: &[FormatToken], no_newline: bool) -> (r: Vec<String>)
    ensures
        r.deep_view() == spec_output_code(tokens.deep_view(), no_newline),
{
    let ghost tv = tokens.deep_view();
    let mut segments: Vec<String> = Vec::new();
    proof {
        assert(tv.subrange(0, tv.len() as int) =~= tv);
        assert(segments.deep_view() + spec_segments_all(tv) =~= spec_segments_all(tv));
    }
    let n = tokens.len();
    let mut i: usize = 0;
    while i < n
        invariant
            0 <= i <= n,
            n == tv.len(),
            tv == tokens.deep_view(),
            spec_segments_all(tv) == segments.deep_view() + spec_segments_all(
                tv.subrange(i as int, n as int),
            ),
        decreases n - i,
    {
        let ghost pre = segments.deep_view();
        let ghost tail = tv.subrange(i as int, n as int);
        proof {
            assert(tail[0] == tv[i as int]);
            assert(tail.drop_first() =~= tv.subrange(i + 1, n as int));
        }
        let t = slice_index_get(tokens, i);
        proof {
            assert(t.deep_view() == tv[i as int]);
        }
        match t {
            FormatToken::StyleChange { style_specs } => {
                segments.push(String::from_str("result.push_str(\"\\x1B[0m\");"));
                let sl = style_specs.as_slice();
                proof {
                    assert(sl.deep_view() =~= style_specs.deep_view());
                }
                let ansi = ansi_code_for_style(sl);
                let esc = escape_string(ansi.as_str());
                let mut seg = String::from_str("result.push_str(\"");
                seg.append(esc.as_str());
                seg.append("\");");
                let ghost segv = seg@;
                segments.push(seg);
                proof {
                    assert(segments.deep_view() =~= pre.push(
                        "result.push_str(\"\\x1B[0m\");"@,
                    ).push(segv));
                    assert(spec_token_segments(tv[i as int]) =~= seq![
                        "result.push_str(\"\\x1B[0m\");"@,
                        segv,
                    ]);
                    assert(segments.deep_view() + spec_segments_all(tail.drop_first()) =~= pre
                        + spec_segments_all(tail));
                }
            },
            FormatToken::StyleVariable { name } => {
                segments.push(String::from_str("result.push_str(\"\\x1B[0m\");"));
                let mut seg = String::from_str("let style_specs = ");
                seg.append(name.as_str());
                seg.append(".split(',').map(|s| s.trim().to_string()).collect::<Vec<String>>();");
                let ghost segv = seg@;
                segments.push(seg);
                segments.push(
                    String::from_str("let ansi = colorstyle_internal::ansi_code_for_style(&style_specs);"),
                );
                segments.push(String::from_str("result.push_str(&ansi);"));
                proof {
                    assert(segments.deep_view() =~= pre.push(
                        "result.push_str(\"\\x1B[0m\");"@,
                    ).push(segv).push(
                        "let ansi = colorstyle_internal::ansi_code_for_style(&style_specs);"@,
                    ).push("result.push_str(&ansi);"@));
                    assert(spec_token_segments(tv[i as int]) =~= seq![
                        "result.push_str(\"\\x1B[0m\");"@,
                        segv,
                        "let ansi = colorstyle_internal::ansi_code_for_style(&style_specs);"@,
                        "result.push_str(&ansi);"@,
                    ]);
                    assert(segments.deep_view() + spec_segments_all(tail.drop_first()) =~= pre
                        + spec_segments_all(tail));
                }
            },
            FormatToken::StyleReset => {
                segments.push(String::from_str("result.push_str(\"\\x1B[0m\");"));
                proof {
                    assert(segments.deep_view() =~= pre.push(
                        "result.push_str(\"\\x1B[0m\");"@,
                    ));
                    assert(spec_token_segments(tv[i as int]) =~= seq![
                        "result.push_str(\"\\x1B[0m\");"@,
                    ]);
                    assert(segments.deep_view() + spec_segments_all(tail.drop_first()) =~= pre
                        + spec_segments_all(tail));
                }
            },
            FormatToken::Text { content } => {
                if content.as_str().unicode_len() > 0 {
                    let esc = escape_string(content.as_str());
                    let mut seg = String::from_str("result.push_str(\"");
                    seg.append(esc.as_str());
                    seg.append("\");");
                    let ghost segv = seg@;
                    segments.push(seg);
                    proof {
                        assert(segments.deep_view() =~= pre.push(segv));
                        assert(spec_token_segments(tv[i as int]) =~= seq![segv]);
                        assert(segments.deep_view() + spec_segments_all(tail.drop_first())
                            =~= pre + spec_segments_all(tail));
                    }
                } else {
                    proof {
                        assert(spec_token_segments(tv[i as int]) =~= Seq::<Seq<char>>::empty());
                        assert(segments.deep_view() + spec_segments_all(tail.drop_first())
                            =~= pre + spec_segments_all(tail));
                    }
                }
            },
            FormatToken::Variable { name, format, format_args } => {
                let code = variable_format_code(name.as_str(), format, format_args);
                let mut seg = String::from_str("result.push_str(&(");
                seg.append(code.as_str());
                seg.append("));");
                let ghost segv = seg@;
                segments.push(seg);
                proof {
                    assert(segments.deep_view() =~= pre.push(segv));
                    assert(spec_token_segments(tv[i as int]) =~= seq![segv]);
                    assert(segments.deep_view() + spec_segments_all(tail.drop_first()) =~= pre
                        + spec_segments_all(tail));
                }
            },
        }
        i = i + 1;
    }
    proof {
        assert(tv.subrange(n as int, n as int) =~= Seq::<TokenModel>::empty());
        assert(spec_segments_all(Seq::<TokenModel>::empty()) =~= Seq::<Seq<char>>::empty());
        assert(segments.deep_view() + Seq::<Seq<char>>::empty() =~= segments.deep_view());
    }
    let ghost body = segments.deep_view();
    segments.push(String::from_str("result.push_str(\"\\x1B[0m\");"));
    let mut last = if no_newline {
        String::from_str("print!(\"{}\", result)")
    } else {
        String::from_str("print!(\"{}\n\", result)")
    };
    last.append("; std::io::stdout().flush().expect(\"Failed to flush stdout\");");
    let ghost lastv = last@;
    segments.push(last);
    proof {
        assert(segments.deep_view() =~= body.push("result.push_str(\"\\x1B[0m\");"@).push(
            lastv,
        ));
        assert(segments.deep_view() =~= spec_output_code(tv, no_newline));
    }
    segments
}

} // verus!
