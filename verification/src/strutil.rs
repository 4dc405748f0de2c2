//! Small verified building blocks for working with strings as sequences of
//! characters: equality, searching, trimming, splitting on a separator
//! character, joining, and appending single characters or runs of spaces.
use vstd::prelude::*;
use vstd::string::*;

verus! {

/// The characters this library treats as trimmable whitespace.
pub open spec fn spec_is_space(c: char) -> bool {
    c == ' ' || c == '\t' || c == '\n' || c == '\r'
}

pub open spec fn spec_trim_front(s: Seq<char>) -> Seq<char>
    decreases s.len(),
{
    if s.len() > 0 && spec_is_space(s[0]) {
        spec_trim_front(s.drop_first())
    } else {
        s
    }
}

pub open spec fn spec_trim_back(s: Seq<char>) -> Seq<char>
    decreases s.len(),
{
    if s.len() > 0 && spec_is_space(s[s.len() - 1]) {
        spec_trim_back(s.drop_last())
    } else {
        s
    }
}

/// The string with leading and trailing whitespace removed.
pub open spec fn spec_trim(s: Seq<char>) -> Seq<char> {
    spec_trim_back(spec_trim_front(s))
}

/// Index of the first occurrence of `c` at or after `from`; the length of
/// `s` when there is none.
pub open spec fn spec_find_char(s: Seq<char>, from: int, c: char) -> int
    decreases s.len() - from,
{
    if from >= s.len() {
        s.len() as int
    } else if s[from] == c {
        from
    } else {
        spec_find_char(s, from + 1, c)
    }
}

pub proof fn lemma_find_char_props(s: Seq<char>, from: int, c: char)
    requires
        0 <= from <= s.len(),
    ensures
        from <= spec_find_char(s, from, c) <= s.len(),
        spec_find_char(s, from, c) < s.len() ==> s[spec_find_char(s, from, c)] == c,
        forall|j: int| from <= j < spec_find_char(s, from, c) ==> s[j] != c,
    decreases s.len() - from,
{
    if from < s.len() && s[from] != c {
        lemma_find_char_props(s, from + 1, c);
    }
}

/// Whether `c` occurs anywhere in `s`.
pub open spec fn spec_contains_char(s: Seq<char>, c: char) -> bool {
    spec_find_char(s, 0, c) < s.len()
}

/// `s` split at every occurrence of `c` from position `from` on; the
/// separator itself is dropped.  Splitting never yields fewer than one
/// piece: a string without the separator is returned whole.
pub open spec fn spec_split_from(s: Seq<char>, from: int, c: char) -> Seq<Seq<char>>
    decreases s.len() - from,
{
    let k = spec_find_char(s, from, c);
    if from <= k && k < s.len() {
        seq![s.subrange(from, k)] + spec_split_from(s, k + 1, c)
    } else {
        seq![s.subrange(from, s.len() as int)]
    }
}

pub open spec fn spec_split_char(s: Seq<char>, c: char) -> Seq<Seq<char>> {
    spec_split_from(s, 0, c)
}

/// Each piece of the comma-split of `s`, trimmed.
pub open spec fn spec_split_trim(s: Seq<char>) -> Seq<Seq<char>> {
    spec_split_char(s, ',').map_values(|e: Seq<char>| spec_trim(e))
}

/// The pieces joined with `sep` between consecutive pieces.
pub open spec fn spec_join(parts: Seq<Seq<char>>, sep: Seq<char>) -> Seq<char>
    decreases parts.len(),
{
    if parts.len() == 0 {
        Seq::empty()
    } else if parts.len() == 1 {
        parts[0]
    } else {
        parts[0] + sep + spec_join(parts.drop_first(), sep)
    }
}

pub proof fn lemma_join_push(parts: Seq<Seq<char>>, sep: Seq<char>, x: Seq<char>)
    ensures
        spec_join(parts.push(x), sep) == if parts.len() == 0 {
            x
        } else {
            spec_join(parts, sep) + sep + x
        },
    decreases parts.len(),
{
    if parts.len() == 0 {
        assert(parts.push(x) =~= seq![x]);
        assert(spec_join(seq![x], sep) == x);
    } else {
        assert(parts.push(x).drop_first() =~= parts.drop_first().push(x));
        lemma_join_push(parts.drop_first(), sep, x);
        if parts.len() == 1 {
            assert(parts.push(x)[0] + sep + x == parts[0] + sep + x);
        } else {
            assert((parts[0] + sep + spec_join(parts.drop_first(), sep)) + sep + x =~= parts[0]
                + sep + (spec_join(parts.drop_first(), sep) + sep + x));
        }
    }
}

/// A run of `n` spaces.
pub open spec fn spec_spaces(n: nat) -> Seq<char>
    decreases n,
{
    if n == 0 {
        Seq::empty()
    } else {
        spec_spaces((n - 1) as nat) + seq![' ']
    }
}

pub proof fn lemma_spaces_add(a: nat, b: nat)
    ensures
        spec_spaces(a + b) == spec_spaces(a) + spec_spaces(b),
    decreases b,
{
    if b == 0 {
        assert(spec_spaces(a) + spec_spaces(0) =~= spec_spaces(a));
    } else {
        lemma_spaces_add(a, (b - 1) as nat);
        assert((spec_spaces(a) + spec_spaces((b - 1) as nat)) + seq![' '] =~= spec_spaces(a)
            + (spec_spaces((b - 1) as nat) + seq![' ']));
    }
}

/// Relies on `String::push`: appends the given character to the end of the
/// string, leaving the earlier contents in place.
#[verifier::external_body]
pub fn push_char(s: &mut String, c: char)
    ensures
        final(s)@ == old(s)@ + seq![c],
{
    s.push(c);
}

/// Character-content equality of two string slices.
pub fn str_eq(a: &str, b: &str) -> (r: bool)
    ensures
        r == (a@ == b@),
{
    let sa = String::from_str(a);
    let sb = String::from_str(b);
    sa == sb
}

/// An owned copy of the characters of `s` from `a` (inclusive) to `b`
/// (exclusive).
pub fn substr(s: &str, a: usize, b: usize) -> (r: String)
    requires
        a <= b <= s@.len(),
    ensures
        r@ == s@.subrange(a as int, b as int),
{
    String::from_str(s.substring_char(a, b))
}

pub fn is_space_char(c: char) -> (r: bool)
    ensures
        r == spec_is_space(c),
{
    c == ' ' || c == '\t' || c == '\n' || c == '\r'
}

pub fn find_char_from(s: &str, from: usize, c: char) -> (r: usize)
    requires
        from <= s@.len(),
    ensures
        r == spec_find_char(s@, from as int, c),
        from <= r <= s@.len(),
    decreases s@.len() - from,
{
    proof {
        lemma_find_char_props(s@, from as int, c);
    }
    let n = s.unicode_len();
    let mut i = from;
    while i < n
        invariant
            from <= i <= n,
            spec_find_char(s@, from as int, c) == spec_find_char(s@, i as int, c),
        decreases n - i,
    {
        if s.get_char(i) == c {
            return i;
        }
        i = i + 1;
    }
    i
}

pub fn contains_char(s: &str, c: char) -> (r: bool)
    ensures
        r == spec_contains_char(s@, c),
{
    let n = s.unicode_len();
    let k = find_char_from(s, 0, c);
    k < n
}

/// Bounds `(a, b)` of the trimmed core of `s`: `s@.subrange(a, b)` is `s`
/// without leading and trailing whitespace.
pub fn trim_bounds(s: &str) -> (r: (usize, usize))
    ensures
        r.0 <= r.1 <= s@.len(),
        s@.subrange(r.0 as int, r.1 as int) == spec_trim(s@),
{
    let n = s.unicode_len();
    proof {
        assert(s@.subrange(0, n as int) =~= s@);
    }
    let mut a: usize = 0;
    while a < n && is_space_char(s.get_char(a))
        invariant
            0 <= a <= n,
            spec_trim_front(s@) == spec_trim_front(s@.subrange(a as int, n as int)),
        decreases n - a,
    {
        proof {
            assert(s@.subrange(a as int, n as int).drop_first() =~= s@.subrange(
                a + 1,
                n as int,
            ));
        }
        a = a + 1;
    }
    proof {
        assert(spec_trim_front(s@) =~= s@.subrange(a as int, n as int));
    }
    let mut b: usize = n;
    while b > a && is_space_char(s.get_char(b - 1))
        invariant
            a <= b <= n,
            spec_trim_back(s@.subrange(a as int, n as int)) == spec_trim_back(
                s@.subrange(a as int, b as int),
            ),
        decreases b,
    {
        proof {
            assert(s@.subrange(a as int, b as int).drop_last() =~= s@.subrange(
                a as int,
                b - 1,
            ));
        }
        b = b - 1;
    }
    proof {
        assert(spec_trim_back(s@.subrange(a as int, b as int)) =~= s@.subrange(
            a as int,
            b as int,
        ));
    }
    (a, b)
}

/// An owned copy of `s` with leading and trailing whitespace removed.
pub fn trim_str(s: &str) -> (r: String)
    ensures
        r@ == spec_trim(s@),
{
    let (a, b) = trim_bounds(s);
    substr(s, a, b)
}

/// Appends `n` spaces to `out`.
pub fn push_spaces(out: &mut String, n: usize)
    ensures
        final(out)@ == old(out)@ + spec_spaces(n as nat),
{
    let mut i: usize = 0;
    while i < n
        invariant
            0 <= i <= n,
            out@ == old(out)@ + spec_spaces(i as nat),
        decreases n - i,
    {
        push_char(out, ' ');
        i = i + 1;
    }
}

/// `s` split at every comma; the separator is dropped.
pub fn split_commas(s: &str) -> (r: Vec<String>)
    ensures
        r.deep_view() == spec_split_char(s@, ','),
{
    let n = s.unicode_len();
    let mut parts: Vec<String> = Vec::new();
    let mut pos: usize = 0;
    loop
        invariant
            0 <= pos <= n,
            spec_split_char(s@, ',') == parts.deep_view() + spec_split_from(
                s@,
                pos as int,
                ',',
            ),
        decreases n - pos,
    {
        let k = find_char_from(s, pos, ',');
        if k < n {
            let piece = substr(s, pos, k);
            parts.push(piece);
            proof {
                assert(parts.deep_view() =~= parts.deep_view().subrange(
                    0,
                    parts.deep_view().len() - 1,
                ).push(piece.deep_view()));
                assert(spec_split_char(s@, ',') =~= parts.deep_view() + spec_split_from(
                    s@,
                    k + 1,
                    ',',
                ));
            }
            pos = k + 1;
        } else {
            let piece = substr(s, pos, n);
            parts.push(piece);
            proof {
                assert(spec_split_char(s@, ',') =~= parts.deep_view());
            }
            return parts;
        }
    }
}

/// The comma-split of `s` with every piece trimmed.
pub fn split_commas_trim(s: &str) -> (r: Vec<String>)
    ensures
        r.deep_view() == spec_split_trim(s@),
{
    let raw = split_commas(s);
    let mut out: Vec<String> = Vec::new();
    let mut i: usize = 0;
    while i < raw.len()
        invariant
            0 <= i <= raw.len(),
            raw.deep_view() == spec_split_char(s@, ','),
            out.deep_view() == raw.deep_view().subrange(0, i as int).map_values(
                |e: Seq<char>| spec_trim(e),
            ),
        decreases raw.len() - i,
    {
        let ghost old_dv = out.deep_view();
        let t = trim_str(raw[i].as_str());
        let ghost tv = t@;
        out.push(t);
        proof {
            assert(out.deep_view() =~= old_dv.push(tv));
            assert(raw.deep_view().subrange(0, i + 1) =~= raw.deep_view().subrange(
                0,
                i as int,
            ).push(raw.deep_view()[i as int]));
            assert(out.deep_view() =~= raw.deep_view().subrange(0, i + 1).map_values(
                |e: Seq<char>| spec_trim(e),
            ));
        }
        i = i + 1;
    }
    proof {
        assert(raw.deep_view().subrange(0, raw.deep_view().len() as int) =~= raw.deep_view());
    }
    out
}

/// Appends the parts to `out`, with `sep` between consecutive parts.
pub fn push_join(out: &mut String, parts: &Vec<String>, sep: &str)
    ensures
        final(out)@ == old(out)@ + spec_join(parts.deep_view(), sep@),
{
    let mut i: usize = 0;
    while i < parts.len()
        invariant
            0 <= i <= parts.len(),
            out@ == old(out)@ + spec_join(parts.deep_view().subrange(0, i as int), sep@),
        decreases parts.len() - i,
    {
        if i > 0 {
            out.append(sep);
        }
        out.append(parts[i].as_str());
        proof {
            let pv = parts.deep_view();
            assert(pv.subrange(0, i + 1) =~= pv.subrange(0, i as int).push(pv[i as int]));
            lemma_join_push(pv.subrange(0, i as int), sep@, pv[i as int]);
        }
        i = i + 1;
    }
    proof {
        assert(parts.deep_view().subrange(0, parts.deep_view().len() as int)
            =~= parts.deep_view());
    }
}

} // verus!
