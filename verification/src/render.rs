//! The renderer: assembles the output string from a token sequence and
//! the values a caller resolved, and the separator policy of a trailing
//! `$( ... )` directive.
//!
//! Rendering walks the tokens in order.  A style change appends the reset
//! sequence and then the new escape sequence; a style variable does the
//! same after splitting its resolved value on commas; a style reset
//! appends the reset sequence alone; text is appended verbatim; a
//! variable appends its resolved text, passed through the container,
//! matrix, determinant or table formatter when its format specifier names
//! one.  After the last token the reset sequence is appended once more,
//! so the output never leaves the terminal styled.
//!
//! A template may end with one separator directive `$( CONTENT )`.  It is
//! stripped before lexing and suppresses the trailing newline; after the
//! main output, the caller emits the content: the value of a runtime
//! variable when the content is a bare identifier, the content verbatim
//! otherwise, and nothing when the content is the two-character literal
//! `""`.
use crate::colorstyle::{ansi_code_for_style, spec_ansi_code, spec_reset};
use crate::fmtbasic::{format_container, spec_format_container};
use crate::fmtmath::{
    format_determinant, format_matrix, spec_format_determinant, spec_format_matrix,
};
use crate::fmttable::{format_table, spec_format_table};
use crate::formatext::{parse_format_string, spec_parse_tokens, spec_used_vars, FormatToken, TokenModel};
use crate::strutil::{
    find_char_from, spec_find_char, spec_split_trim, split_commas_trim, str_eq, substr,
};
use vstd::prelude::*;
use vstd::string::*;

verus! {

/// What a separator directive asks the caller to emit after the main
/// output.
pub enum SeparatorKind {
    Absent,
    VariableRef { name: String },
    LiteralText { text: String },
}

/// The mathematical shape of a separator.
pub enum SeparatorModel {
    Absent,
    VariableRef { name: Seq<char> },
    LiteralText { text: Seq<char> },
}

impl View for SeparatorKind {
    type V = SeparatorModel;

    open spec fn view(&self) -> SeparatorModel {
        match self {
            SeparatorKind::Absent => SeparatorModel::Absent,
            SeparatorKind::VariableRef { name } => SeparatorModel::VariableRef { name: name@ },
            SeparatorKind::LiteralText { text } => SeparatorModel::LiteralText { text: text@ },
        }
    }
}

/// Whether a separator directive `$( ... )` starts at `k` and runs to the
/// very end of the template: its content holds no closing parenthesis.
pub open spec fn spec_sep_start_at(s: Seq<char>, k: int) -> bool {
    0 <= k && k + 2 < s.len() && s[k] == '$' && s[k + 1] == '(' && spec_find_char(s, k + 2, ')')
        == s.len() - 1
}

/// The start of the leftmost trailing separator directive at or after
/// `k`; the length of `s` when there is none.
pub open spec fn spec_find_sep(s: Seq<char>, k: int) -> int
    decreases s.len() - k,
{
    if k >= s.len() {
        s.len() as int
    } else if spec_sep_start_at(s, k) {
        k
    } else {
        spec_find_sep(s, k + 1)
    }
}

/// The content of the trailing separator directive, when the template
/// has one.
pub open spec fn spec_separator(s: Seq<char>) -> Option<Seq<char>> {
    let k = spec_find_sep(s, 0);
    if k < s.len() {
        Some(s.subrange(k + 2, s.len() - 1))
    } else {
        None
    }
}

/// The template with its trailing separator directive stripped.
pub open spec fn spec_core_template(s: Seq<char>) -> Seq<char> {
    let k = spec_find_sep(s, 0);
    if k < s.len() {
        s.subrange(0, k)
    } else {
        s
    }
}

pub open spec fn spec_ident_head(c: char) -> bool {
    ('a' <= c && c <= 'z') || ('A' <= c && c <= 'Z') || c == '_'
}

pub open spec fn spec_ident_tail(c: char) -> bool {
    spec_ident_head(c) || ('0' <= c && c <= '9')
}

/// Whether separator content is a bare identifier, to be resolved as a
/// runtime variable.
pub open spec fn spec_is_ident(e: Seq<char>) -> bool {
    e.len() > 0 && spec_ident_head(e[0]) && forall|i: int|
        1 <= i < e.len() ==> spec_ident_tail(#[trigger] e[i])
}

/// How separator content is classified: the two-character literal `""`
/// asks for nothing, a bare identifier for a variable's value, anything
/// else for itself verbatim.
pub open spec fn spec_classify_separator(sep: Option<Seq<char>>) -> SeparatorModel {
    match sep {
        None => SeparatorModel::Absent,
        Some(content) => if content == seq!['"', '"'] {
            SeparatorModel::LiteralText { text: Seq::empty() }
        } else if spec_is_ident(content) {
            SeparatorModel::VariableRef { name: content }
        } else {
            SeparatorModel::LiteralText { text: content }
        },
    }
}

/// The resolution a token consumed, or nothing when the caller supplied
/// too few.
pub open spec fn spec_res_at(res: Seq<Seq<char>>, j: int) -> Seq<char> {
    if 0 <= j < res.len() {
        res[j]
    } else {
        Seq::empty()
    }
}

/// A resolved variable's text passed through the formatter its format
/// specifier names; `c`, `j` and every passthrough specifier leave the
/// resolver's text as it stands.
pub open spec fn spec_apply_format(
    format: Option<Seq<char>>,
    args: Option<Seq<Seq<char>>>,
    text: Seq<char>,
) -> Seq<char> {
    match format {
        None => text,
        Some(f) => if f == "a"@ {
            spec_format_container(text)
        } else if f == "m"@ {
            spec_format_matrix(text)
        } else if f == "d"@ {
            spec_format_determinant(text)
        } else if f == "t"@ {
            spec_format_table(
                text,
                match args {
                    Some(a) => a,
                    None => Seq::empty(),
                },
                "bright_blue"@,
            )
        } else {
            text
        },
    }
}

/// The rendering of the tokens from `i` on, with `j` resolutions already
/// consumed.
pub open spec fn spec_render_from(
    tokens: Seq<TokenModel>,
    res: Seq<Seq<char>>,
    i: int,
    j: int,
) -> Seq<char>
    decreases tokens.len() - i,
{
    if i < 0 || i >= tokens.len() {
        Seq::empty()
    } else {
        match tokens[i] {
            TokenModel::StyleChange { style_specs } => spec_reset() + spec_ansi_code(style_specs)
                + spec_render_from(tokens, res, i + 1, j),
            TokenModel::StyleVariable { name } => spec_reset() + spec_ansi_code(
                spec_split_trim(spec_res_at(res, j)),
            ) + spec_render_from(tokens, res, i + 1, j + 1),
            TokenModel::StyleReset => spec_reset() + spec_render_from(tokens, res, i + 1, j),
            TokenModel::Text { content } => content + spec_render_from(tokens, res, i + 1, j),
            TokenModel::Variable { name, format, format_args } => spec_apply_format(
                format,
                format_args,
                spec_res_at(res, j),
            ) + spec_render_from(tokens, res, i + 1, j + 1),
        }
    }
}

/// What rendering produces: the tokens' output followed by one final
/// reset sequence.
pub open spec fn spec_render(tokens: Seq<TokenModel>, res: Seq<Seq<char>>) -> Seq<char> {
    spec_render_from(tokens, res, 0, 0) + spec_reset()
}

/// Rendered output never leaves the terminal styled: whatever the tokens
/// and resolutions, it ends with the reset sequence.
pub proof fn lemma_render_ends_with_reset(tokens: Seq<TokenModel>, res: Seq<Seq<char>>)
    ensures
        spec_render(tokens, res).len() >= 4,
        spec_render(tokens, res).subrange(
            spec_render(tokens, res).len() - 4,
            spec_render(tokens, res).len() as int,
        ) == spec_reset(),
{
    reveal_strlit("\x1B[0m");
    assert(spec_reset().len() == 4);
    assert(spec_render(tokens, res).subrange(
        spec_render(tokens, res).len() - 4,
        spec_render(tokens, res).len() as int,
    ) =~= spec_reset());
}

/// Splits a template into its core and its trailing separator directive.
pub fn strip_separator(template: &str) -> (r: (String, SeparatorKind))
    ensures
        r.0@ == spec_core_template(template@),
        r.1@ == spec_classify_separator(spec_separator(template@)),
{
    let n = template.unicode_len();
    let mut k: usize = 0;
    let mut found = n;
    while k < n && found == n
        invariant
            0 <= k <= n,
            found <= n,
            found == n ==> spec_find_sep(template@, 0) == spec_find_sep(template@, k as int),
            found < n ==> spec_find_sep(template@, 0) == found,
            found < n ==> spec_sep_start_at(template@, found as int),
        decreases n - k, (if found == n { 1int } else { 0int }),
    {
        let mut matched = false;
        if template.get_char(k) == '$' && k + 1 < n {
            if template.get_char(k + 1) == '(' {
                let close = find_char_from(template, k + 2, ')');
                if close == n - 1 && k + 2 < n {
                    found = k;
                    matched = true;
                    proof {
                        assert(spec_sep_start_at(template@, k as int));
                    }
                }
            }
        }
        if !matched {
            proof {
                assert(!spec_sep_start_at(template@, k as int));
            }
            k = k + 1;
        }
    }
    if found < n {
        let core = substr(template, 0, found);
        let content = substr(template, found + 2, n - 1);
        let kind = classify_separator_content(content);
        (core, kind)
    } else {
        proof {
            assert(spec_find_sep(template@, n as int) == n);
        }
        (String::from_str(template), SeparatorKind::Absent)
    }
}

/// Classifies the content of a separator directive.
fn classify_separator_content(content: String) -> (r: SeparatorKind)
    ensures
        r@ == spec_classify_separator(Some(content@)),
{
    let n = content.as_str().unicode_len();
    if str_eq(content.as_str(), "\"\"") {
        proof {
            reveal_strlit("\"\"");
            assert("\"\""@ =~= seq!['"', '"']);
        }
        return SeparatorKind::LiteralText { text: String::new() };
    }
    proof {
        reveal_strlit("\"\"");
        assert("\"\""@ =~= seq!['"', '"']);
    }
    let mut is_ident = n > 0;
    let mut i: usize = 0;
    while i < n
        invariant
            0 <= i <= n,
            n == content@.len(),
            is_ident == (n > 0 && (i == 0 || spec_ident_head(content@[0])) && forall|p: int|
                1 <= p < i ==> spec_ident_tail(#[trigger] content@[p])),
        decreases n - i,
    {
        let c = content.as_str().get_char(i);
        if i == 0 {
            if !(('a' <= c && c <= 'z') || ('A' <= c && c <= 'Z') || c == '_') {
                is_ident = false;
            }
        } else {
            if !(('a' <= c && c <= 'z') || ('A' <= c && c <= 'Z') || c == '_' || ('0' <= c && c
                <= '9')) {
                is_ident = false;
            }
        }
        i = i + 1;
    }
    if is_ident {
        SeparatorKind::VariableRef { name: content }
    } else {
        SeparatorKind::LiteralText { text: content }
    }
}

/// What the caller emits for a separator, given the resolved value of
/// its variable (ignored unless the separator names one).
pub fn separator_output(kind: &SeparatorKind, resolved: &str) -> (r: String)
    ensures
        r@ == match kind@ {
            SeparatorModel::Absent => Seq::<char>::empty(),
            SeparatorModel::VariableRef { name } => resolved@,
            SeparatorModel::LiteralText { text } => text,
        },
{
    match kind {
        SeparatorKind::Absent => String::new(),
        SeparatorKind::VariableRef { name } => String::from_str(resolved),
        SeparatorKind::LiteralText { text } => text.clone(),
    }
}

/// Assembles the output of a token sequence.  `resolutions` holds, in
/// token order, one string for each style-variable token (its style-list
/// value) and each variable token (its resolved text); a missing entry
/// stands for the empty string.
#[verifier::rlimit(100)]
pub fn render(tokens: &Vec<FormatToken>, resolutions: &Vec<String>) -> (r: String)
    ensures
        r@ == spec_render(tokens.deep_view(), resolutions.deep_view()),
{
    let ghost tv = tokens.deep_view();
    let ghost rv = resolutions.deep_view();
    let mut out = String::new();
    proof {
        assert(out@ + spec_render_from(tv, rv, 0, 0) =~= spec_render_from(tv, rv, 0, 0));
    }
    let n = tokens.len();
    let mut i: usize = 0;
    let mut j: usize = 0;
    while i < n
        invariant
            0 <= i <= n,
            j <= i,
            n == tv.len(),
            tv == tokens.deep_view(),
            rv == resolutions.deep_view(),
            out@ + spec_render_from(tv, rv, i as int, j as int) == spec_render_from(tv, rv, 0, 0),
        decreases n - i,
    {
        let ghost pre = out@;
        proof {
            assert(tv[i as int] == tokens[i as int]@);
        }
        match &tokens[i] {
            FormatToken::StyleChange { style_specs } => {
                out.append("\x1B[0m");
                let sl = style_specs.as_slice();
                proof {
                    assert(sl.deep_view() =~= style_specs.deep_view());
                }
                let ansi = ansi_code_for_style(sl);
                out.append(ansi.as_str());
                proof {
                    assert(out@ + spec_render_from(tv, rv, i + 1, j as int) =~= pre
                        + spec_render_from(tv, rv, i as int, j as int));
                }
            },
            FormatToken::StyleVariable { name } => {
                out.append("\x1B[0m");
                let text = resolution_at(resolutions, j);
                proof {
                    assert(text@ == spec_res_at(rv, j as int));
                }
                let parts = split_commas_trim(text.as_str());
                let sl = parts.as_slice();
                proof {
                    assert(sl.deep_view() =~= parts.deep_view());
                }
                let ansi = ansi_code_for_style(sl);
                out.append(ansi.as_str());
                proof {
                    assert(out@ + spec_render_from(tv, rv, i + 1, j + 1) =~= pre
                        + spec_render_from(tv, rv, i as int, j as int));
                }
                j = j + 1;
            },
            FormatToken::StyleReset => {
                out.append("\x1B[0m");
                proof {
                    assert(out@ + spec_render_from(tv, rv, i + 1, j as int) =~= pre
                        + spec_render_from(tv, rv, i as int, j as int));
                }
            },
            FormatToken::Text { content } => {
                out.append(content.as_str());
                proof {
                    assert(out@ + spec_render_from(tv, rv, i + 1, j as int) =~= pre
                        + spec_render_from(tv, rv, i as int, j as int));
                }
            },
            FormatToken::Variable { name, format, format_args } => {
                let text = resolution_at(resolutions, j);
                proof {
                    assert(text@ == spec_res_at(rv, j as int));
                }
                let piece = apply_format(format, format_args, text.as_str());
                out.append(piece.as_str());
                proof {
                    assert(out@ + spec_render_from(tv, rv, i + 1, j + 1) =~= pre
                        + spec_render_from(tv, rv, i as int, j as int));
                }
                j = j + 1;
            },
        }
        i = i + 1;
    }
    proof {
        assert(spec_render_from(tv, rv, n as int, j as int) =~= Seq::<char>::empty());
        assert(out@ =~= spec_render_from(tv, rv, 0, 0));
    }
    out.append("\x1B[0m");
    out
}

/// The resolution at index `j`, or an empty string past the end.
fn resolution_at(resolutions: &Vec<String>, j: usize) -> (r: String)
    ensures
        r@ == spec_res_at(resolutions.deep_view(), j as int),
{
    if j < resolutions.len() {
        proof {
            assert(resolutions.deep_view()[j as int] == resolutions[j as int]@);
        }
        resolutions[j].clone()
    } else {
        String::new()
    }
}

/// Applies the formatter a format specifier names to resolved text.
fn apply_format(format: &Option<String>, format_args: &Option<Vec<String>>, text: &str) -> (r:
    String)
    ensures
        r@ == spec_apply_format(format.deep_view(), format_args.deep_view(), text@),
{
    match format {
        None => String::from_str(text),
        Some(f) => {
            if str_eq(f.as_str(), "a") {
                format_container(text)
            } else if str_eq(f.as_str(), "m") {
                format_matrix(text)
            } else if str_eq(f.as_str(), "d") {
                format_determinant(text)
            } else if str_eq(f.as_str(), "t") {
                let empty_headers: Vec<String> = Vec::new();
                match format_args {
                    Some(cols) => {
                        let r = format_table(text, cols, "bright_blue");
                        r
                    },
                    None => {
                        proof {
                            assert(empty_headers.deep_view() =~= Seq::<Seq<char>>::empty());
                        }
                        let r = format_table(text, &empty_headers, "bright_blue");
                        r
                    },
                }
            } else {
                String::from_str(text)
            }
        },
    }
}

/// Everything the renderer needs to know about one template: its tokens,
/// the identifiers it mentions, its separator, and whether the trailing
/// newline is suppressed.
pub struct RenderPlan {
    pub tokens: Vec<FormatToken>,
    pub used_vars: Vec<String>,
    pub separator: SeparatorKind,
    pub no_newline: bool,
}

/// Prepares a template: strips the trailing separator directive, lexes
/// the rest, and classifies the separator.  The trailing newline is
/// suppressed exactly when the template has a separator directive.
pub fn plan_render(template: &str) -> (p: RenderPlan)
    ensures
        p.tokens.deep_view() == spec_parse_tokens(spec_core_template(template@)),
        p.used_vars.deep_view() == spec_used_vars(spec_core_template(template@)),
        p.separator@ == spec_classify_separator(spec_separator(template@)),
        p.no_newline == (spec_separator(template@) is Some),
{
    let (core, separator) = strip_separator(template);
    let no_newline = match &separator {
        SeparatorKind::Absent => false,
        SeparatorKind::VariableRef { name } => true,
        SeparatorKind::LiteralText { text } => true,
    };
    let (tokens, used_vars) = parse_format_string(core.as_str());
    RenderPlan { tokens, used_vars, separator, no_newline }
}

} // verus!
