//! ANSI color and style vocabulary and the style engine.
//!
//! A style name is one of 17 color names (8 standard, 8 bright, plus the
//! alias `gray` for `bright_black`) or 8 text-style modifiers, each mapped
//! to its numeric SGR (Select Graphic Rendition) parameter.  A list of
//! names resolves to one escape sequence `ESC[c1;c2;...m`; unknown names
//! are dropped silently, and a list without a single known name resolves
//! to the reset sequence `ESC[0m`.
use crate::strutil::{
    lemma_join_push, push_join, spec_join, spec_trim, str_eq, trim_str,
};
use vstd::prelude::*;
use vstd::slice::slice_index_get;
use vstd::string::*;

verus! {

/// The ANSI reset sequence `ESC[0m`.
pub open spec fn spec_reset() -> Seq<char> {
    "\x1B[0m"@
}

/// The SGR parameter (as its decimal digits) of a style name, or `None`
/// for a name outside the vocabulary.  Names are matched exactly, without
/// trimming.
pub open spec fn spec_sgr_code(name: Seq<char>) -> Option<Seq<char>> {
    if name == "black"@ {
        Some("30"@)
    } else if name == "red"@ {
        Some("31"@)
    } else if name == "green"@ {
        Some("32"@)
    } else if name == "yellow"@ {
        Some("33"@)
    } else if name == "blue"@ {
        Some("34"@)
    } else if name == "magenta"@ {
        Some("35"@)
    } else if name == "cyan"@ {
        Some("36"@)
    } else if name == "white"@ {
        Some("37"@)
    } else if name == "bright_black"@ || name == "gray"@ {
        Some("90"@)
    } else if name == "bright_red"@ {
        Some("91"@)
    } else if name == "bright_green"@ {
        Some("92"@)
    } else if name == "bright_yellow"@ {
        Some("93"@)
    } else if name == "bright_blue"@ {
        Some("94"@)
    } else if name == "bright_magenta"@ {
        Some("95"@)
    } else if name == "bright_cyan"@ {
        Some("96"@)
    } else if name == "bright_white"@ {
        Some("97"@)
    } else if name == "bold"@ {
        Some("1"@)
    } else if name == "italic"@ {
        Some("3"@)
    } else if name == "underline"@ {
        Some("4"@)
    } else if name == "dimmed"@ {
        Some("2"@)
    } else if name == "blink"@ {
        Some("5"@)
    } else if name == "reversed"@ {
        Some("7"@)
    } else if name == "hidden"@ {
        Some("8"@)
    } else if name == "strikethrough"@ {
        Some("9"@)
    } else {
        None
    }
}

/// The code list of a name list: the SGR codes of the known names, in
/// input order; unknown names contribute nothing.
pub open spec fn spec_codes(names: Seq<Seq<char>>) -> Seq<Seq<char>>
    decreases names.len(),
{
    if names.len() == 0 {
        Seq::empty()
    } else {
        match spec_sgr_code(names[0]) {
            Some(c) => seq![c] + spec_codes(names.drop_first()),
            None => spec_codes(names.drop_first()),
        }
    }
}

/// The code list of a concatenation is the concatenation of the code
/// lists.  In particular the engine keeps the order of its input: the
/// codes of an earlier name always precede the codes of a later one.
pub proof fn lemma_codes_append(a: Seq<Seq<char>>, b: Seq<Seq<char>>)
    ensures
        spec_codes(a + b) == spec_codes(a) + spec_codes(b),
    decreases a.len(),
{
    if a.len() == 0 {
        assert(a + b =~= b);
        assert(spec_codes(a) + spec_codes(b) =~= spec_codes(b));
    } else {
        assert((a + b).drop_first() =~= a.drop_first() + b);
        lemma_codes_append(a.drop_first(), b);
        match spec_sgr_code(a[0]) {
            Some(c) => {
                assert(seq![c] + (spec_codes(a.drop_first()) + spec_codes(b)) =~= (seq![c]
                    + spec_codes(a.drop_first())) + spec_codes(b));
            },
            None => {},
        }
    }
}

/// Appending one name appends that name's codes (none when unknown).
pub proof fn lemma_codes_push(names: Seq<Seq<char>>, x: Seq<char>)
    ensures
        spec_codes(names.push(x)) == spec_codes(names) + (match spec_sgr_code(x) {
            Some(c) => seq![c],
            None => Seq::<Seq<char>>::empty(),
        }),
    decreases names.len(),
{
    let s1 = names.push(x);
    if names.len() == 0 {
        reveal_with_fuel(spec_codes, 3);
        assert(s1[0] == x);
        assert(s1.drop_first() =~= Seq::<Seq<char>>::empty());
        match spec_sgr_code(x) {
            Some(c) => {
                assert(spec_codes(s1) =~= spec_codes(names) + seq![c]);
            },
            None => {
                assert(spec_codes(s1) =~= spec_codes(names));
                assert(spec_codes(names) + Seq::<Seq<char>>::empty() =~= spec_codes(names));
            },
        }
    } else {
        assert(s1[0] == names[0]);
        assert(s1.drop_first() =~= names.drop_first().push(x));
        lemma_codes_push(names.drop_first(), x);
        let tail = match spec_sgr_code(x) {
            Some(c) => seq![c],
            None => Seq::<Seq<char>>::empty(),
        };
        match spec_sgr_code(names[0]) {
            Some(c0) => {
                assert(seq![c0] + (spec_codes(names.drop_first()) + tail) =~= (seq![c0]
                    + spec_codes(names.drop_first())) + tail);
            },
            None => {},
        }
    }
}

/// A list in which no name is known produces an empty code list.
pub proof fn lemma_codes_all_unknown(names: Seq<Seq<char>>)
    requires
        forall|i: int| 0 <= i < names.len() ==> spec_sgr_code(names[i]) is None,
    ensures
        spec_codes(names).len() == 0,
    decreases names.len(),
{
    if names.len() > 0 {
        assert(spec_sgr_code(names[0]) is None);
        lemma_codes_all_unknown(names.drop_first());
    }
}

/// The escape sequence of a name list: `ESC[` + codes joined by `;` + `m`,
/// or the reset sequence when no name is known.
pub open spec fn spec_ansi_code(names: Seq<Seq<char>>) -> Seq<char> {
    if spec_codes(names).len() == 0 {
        spec_reset()
    } else {
        "\x1B["@ + spec_join(spec_codes(names), ";"@) + "m"@
    }
}

/// A list without a single known name resolves to the reset sequence, the
/// same as an empty list does.
pub proof fn lemma_ansi_unknown_is_reset(names: Seq<Seq<char>>)
    requires
        forall|i: int| 0 <= i < names.len() ==> spec_sgr_code(names[i]) is None,
    ensures
        spec_ansi_code(names) == spec_reset(),
        spec_ansi_code(names) == spec_ansi_code(Seq::<Seq<char>>::empty()),
{
    lemma_codes_all_unknown(names);
}

/// The SGR code of a single style name, or `None` for an unknown name.
pub fn lookup_code(name: &str) -> (r: Option<String>)
    ensures
        match r {
            Some(c) => spec_sgr_code(name@) == Some(c@),
            None => spec_sgr_code(name@) is None,
        },
{
    if str_eq(name, "black") {
        Some(String::from_str("30"))
    } else if str_eq(name, "red") {
        Some(String::from_str("31"))
    } else if str_eq(name, "green") {
        Some(String::from_str("32"))
    } else if str_eq(name, "yellow") {
        Some(String::from_str("33"))
    } else if str_eq(name, "blue") {
        Some(String::from_str("34"))
    } else if str_eq(name, "magenta") {
        Some(String::from_str("35"))
    } else if str_eq(name, "cyan") {
        Some(String::from_str("36"))
    } else if str_eq(name, "white") {
        Some(String::from_str("37"))
    } else if str_eq(name, "bright_black") || str_eq(name, "gray") {
        Some(String::from_str("90"))
    } else if str_eq(name, "bright_red") {
        Some(String::from_str("91"))
    } else if str_eq(name, "bright_green") {
        Some(String::from_str("92"))
    } else if str_eq(name, "bright_yellow") {
        Some(String::from_str("93"))
    } else if str_eq(name, "bright_blue") {
        Some(String::from_str("94"))
    } else if str_eq(name, "bright_magenta") {
        Some(String::from_str("95"))
    } else if str_eq(name, "bright_cyan") {
        Some(String::from_str("96"))
    } else if str_eq(name, "bright_white") {
        Some(String::from_str("97"))
    } else if str_eq(name, "bold") {
        Some(String::from_str("1"))
    } else if str_eq(name, "italic") {
        Some(String::from_str("3"))
    } else if str_eq(name, "underline") {
        Some(String::from_str("4"))
    } else if str_eq(name, "dimmed") {
        Some(String::from_str("2"))
    } else if str_eq(name, "blink") {
        Some(String::from_str("5"))
    } else if str_eq(name, "reversed") {
        Some(String::from_str("7"))
    } else if str_eq(name, "hidden") {
        Some(String::from_str("8"))
    } else if str_eq(name, "strikethrough") {
        Some(String::from_str("9"))
    } else {
        None
    }
}

/// Resolves a list of style names to one ANSI escape sequence, keeping
/// input order and dropping unknown names; a list without a known name
/// gives the reset sequence.
pub fn ansi_code_for_style(styles: &[String]) -> (r: String)
    ensures
        r@ == spec_ansi_code(styles.deep_view()),
{
    let n = styles.len();
    let mut codes: Vec<String> = Vec::new();
    let mut i: usize = 0;
    while i < n
        invariant
            0 <= i <= n,
            codes.deep_view() == spec_codes(styles.deep_view().subrange(0, i as int)),
        decreases n - i,
    {
        let ghost pre = codes.deep_view();
        let name = slice_index_get(styles, i);
        let looked = lookup_code(name.as_str());
        match looked {
            Some(c) => {
                let ghost cv = c@;
                codes.push(c);
                proof {
                    assert(codes.deep_view() =~= pre.push(cv));
                }
            },
            None => {},
        }
        proof {
            let sv = styles.deep_view();
            assert(sv.subrange(0, i + 1) =~= sv.subrange(0, i as int).push(sv[i as int]));
            lemma_codes_push(sv.subrange(0, i as int), sv[i as int]);
            match spec_sgr_code(sv[i as int]) {
                Some(c) => {
                    assert(codes.deep_view() =~= pre + seq![c]);
                },
                None => {
                    assert(codes.deep_view() =~= pre + Seq::<Seq<char>>::empty());
                },
            }
        }
        i = i + 1;
    }
    proof {
        assert(styles.deep_view().subrange(0, n as int) =~= styles.deep_view());
    }
    if codes.len() == 0 {
        String::from_str("\x1B[0m")
    } else {
        let mut out = String::from_str("\x1B[");
        push_join(&mut out, &codes, ";");
        out.append("m");
        out
    }
}

/// How one character is escaped: backslash, double quote and newline each
/// gain a backslash; every other character stands unchanged.
pub open spec fn spec_escape_char(c: char) -> Seq<char> {
    if c == '\\' {
        seq!['\\', '\\']
    } else if c == '"' {
        seq!['\\', '"']
    } else if c == '\n' {
        seq!['\\', 'n']
    } else {
        seq![c]
    }
}

/// The whole string escaped character by character.
pub open spec fn spec_escape(s: Seq<char>) -> Seq<char>
    decreases s.len(),
{
    if s.len() == 0 {
        Seq::empty()
    } else {
        spec_escape_char(s[0]) + spec_escape(s.drop_first())
    }
}

/// Escapes backslashes, double quotes and newlines so the result can stand
/// inside a double-quoted source literal.
pub fn escape_string(s: &str) -> (r: String)
    ensures
        r@ == spec_escape(s@),
{
    let n = s.unicode_len();
    proof {
        assert(s@.subrange(0, n as int) =~= s@);
    }
    let mut out = String::new();
    let mut i: usize = 0;
    while i < n
        invariant
            0 <= i <= n,
            out@ + spec_escape(s@.subrange(i as int, n as int)) == spec_escape(s@),
        decreases n - i,
    {
        proof {
            assert(s@.subrange(i as int, n as int).drop_first() =~= s@.subrange(
                i + 1,
                n as int,
            ));
        }
        let c = s.get_char(i);
        if c == '\\' {
            crate::strutil::push_char(&mut out, '\\');
            crate::strutil::push_char(&mut out, '\\');
        } else if c == '"' {
            crate::strutil::push_char(&mut out, '\\');
            crate::strutil::push_char(&mut out, '"');
        } else if c == '\n' {
            crate::strutil::push_char(&mut out, '\\');
            crate::strutil::push_char(&mut out, 'n');
        } else {
            crate::strutil::push_char(&mut out, c);
        }
        i = i + 1;
    }
    proof {
        assert(s@.subrange(n as int, n as int) =~= Seq::<char>::empty());
    }
    out
}

/// Whether a term, after trimming, is a known color or style name.
pub fn is_known_term(term: &str) -> (r: bool)
    ensures
        r == (spec_sgr_code(spec_trim(term@)) is Some),
{
    let trimmed = trim_str(term);
    let looked = lookup_code(trimmed.as_str());
    looked.is_some()
}

} // verus!
