//! The line-oriented text format: `key = value` lines, blank lines and comments.
use vstd::prelude::*;

verus! {

/// Unicode `White_Space`, the characters that `str::trim` removes.
pub open spec fn is_ws(c: char) -> bool {
    ('\u{9}' <= c && c <= '\u{d}') || c == ' ' || c == '\u{85}' || c == '\u{a0}' || c == '\u{1680}'
        || ('\u{2000}' <= c && c <= '\u{200a}') || c == '\u{2028}' || c == '\u{2029}' || c
        == '\u{202f}' || c == '\u{205f}' || c == '\u{3000}'
}

/// `s` without its leading white space.
pub open spec fn trim_start(s: Seq<char>) -> Seq<char>
    decreases s.len(),
{
    if s.len() > 0 && is_ws(s[0]) {
        trim_start(s.drop_first())
    } else {
        s
    }
}

/// `s` without its trailing white space.
pub open spec fn trim_end(s: Seq<char>) -> Seq<char>
    decreases s.len(),
{
    if s.len() > 0 && is_ws(s.last()) {
        trim_end(s.drop_last())
    } else {
        s
    }
}

/// `s` without leading and trailing white space.
pub open spec fn trim(s: Seq<char>) -> Seq<char> {
    trim_end(trim_start(s))
}

/// Position of the first `c` in `s`, or -1 when `s` holds none.
pub open spec fn index_of(s: Seq<char>, c: char) -> int
    decreases s.len(),
{
    if s.len() == 0 {
        -1
    } else if s[0] == c {
        0
    } else {
        let r = index_of(s.drop_first(), c);
        if r < 0 {
            -1
        } else {
            r + 1
        }
    }
}

/// The pieces of `s` between occurrences of `c`; at least one piece, empty ones kept.
pub open spec fn split_on(s: Seq<char>, c: char) -> Seq<Seq<char>>
    decreases s.len(),
{
    if s.len() == 0 {
        seq![Seq::empty()]
    } else {
        let rest = split_on(s.drop_first(), c);
        if s[0] == c {
            seq![Seq::empty()] + rest
        } else {
            rest.update(0, seq![s[0]] + rest[0])
        }
    }
}

/// The elements of `xs` with `sep` between each two neighbours.
pub open spec fn join_with(xs: Seq<Seq<char>>, sep: Seq<char>) -> Seq<char>
    decreases xs.len(),
{
    if xs.len() == 0 {
        Seq::empty()
    } else if xs.len() == 1 {
        xs[0]
    } else {
        join_with(xs.drop_last(), sep) + sep + xs.last()
    }
}

pub open spec fn string_views(v: Seq<String>) -> Seq<Seq<char>> {
    v.map_values(|s: String| s@)
}

/// The serialized form of one property: `key = value` and a newline.
pub open spec fn line_of(key: Seq<char>, value: Seq<char>) -> Seq<char> {
    key + seq![' ', '=', ' '] + value + seq!['\n']
}

/// Text that begins a comment: `#`, `//` or `/*`.
pub open spec fn starts_comment(t: Seq<char>) -> bool {
    seq!['#'].is_prefix_of(t) || seq!['/', '/'].is_prefix_of(t) || seq!['/', '*'].is_prefix_of(t)
}

/// A trimmed line that holds nothing: empty, or a comment.
pub open spec fn is_comment_or_blank(t: Seq<char>) -> bool {
    t.len() == 0 || starts_comment(t)
}

/// Text with no white space at either end.
pub open spec fn is_trimmed(s: Seq<char>) -> bool {
    s.len() == 0 || (!is_ws(s[0]) && !is_ws(s.last()))
}

/// The property that a line holds, if it holds one.
pub open spec fn parse_entry(line: Seq<char>) -> Option<(Seq<char>, Seq<char>)> {
    let t = trim(line);
    let i = index_of(t, '=');
    if is_comment_or_blank(t) || i < 0 {
        None
    } else {
        Some((trim(t.subrange(0, i)), trim(t.subrange(i + 1, t.len() as int))))
    }
}

/// A line that is neither blank nor a comment and has no `=`.
pub open spec fn is_malformed(line: Seq<char>) -> bool {
    let t = trim(line);
    !is_comment_or_blank(t) && index_of(t, '=') < 0
}

/// What one line of the format holds.
pub enum ParsedLine {
    /// A blank line or a comment.
    Ignored,
    /// A `key = value` line, key and value trimmed.
    Entry(String, String),
    /// A line with content but no `=`.
    Malformed,
}

impl ParsedLine {
    pub open spec fn matches_line(self, line: Seq<char>) -> bool {
        match self {
            ParsedLine::Ignored => parse_entry(line).is_none() && !is_malformed(line),
            ParsedLine::Entry(k, v) => parse_entry(line) == Some((k@, v@)),
            ParsedLine::Malformed => is_malformed(line),
        }
    }
}

/// Relies on gostd::strings::TrimSpace, which is `str::trim`: Unicode white space
/// removed at both ends.
#[verifier::external_body]
fn trim_space(s: &str) -> (r: String)
    ensures
        r@ == trim(s@),
{
    gostd::strings::TrimSpace(s).to_string()
}

/// Relies on gostd::strings::Cut: the text before and after the first `sep`, and
/// whether there is one; `(s, "", false)` when there is none.
#[verifier::external_body]
fn cut(s: &str, sep: &str) -> (r: (String, String, bool))
    requires
        sep@.len() == 1,
    ensures
        r.2 == (index_of(s@, sep@[0]) >= 0),
        r.2 ==> r.0@ == s@.subrange(0, index_of(s@, sep@[0])) && r.1@ == s@.subrange(
            index_of(s@, sep@[0]) + 1,
            s@.len() as int,
        ),
        !r.2 ==> r.0@ == s@ && r.1@ == Seq::<char>::empty(),
{
    let (before, after, found) = gostd::strings::Cut(s, sep);
    (before.to_string(), after.to_string(), found)
}

/// Relies on gostd::strings::Split, which is `str::split`: the pieces between
/// the separators, empty ones kept.
#[verifier::external_body]
pub(crate) fn split(s: &str, sep: &str) -> (r: Vec<String>)
    requires
        sep@.len() == 1,
    ensures
        string_views(r@) == split_on(s@, sep@[0]),
{
    gostd::strings::Split(s, sep).iter().map(|p| p.to_string()).collect()
}

/// Relies on gostd::strings::Join: the elements with `sep` between neighbours.
#[verifier::external_body]
pub(crate) fn join(elems: Vec<String>, sep: &str) -> (r: String)
    ensures
        r@ == join_with(string_views(elems@), sep@),
{
    gostd::strings::Join(elems, sep)
}

/// Relies on gostd::strings::HasPrefix, which is `str::starts_with`.
#[verifier::external_body]
fn has_prefix(s: &str, prefix: &str) -> (r: bool)
    ensures
        r == prefix@.is_prefix_of(s@),
{
    gostd::strings::HasPrefix(s, prefix)
}

proof fn lemma_join_two(a: Seq<char>, b: Seq<char>, sep: Seq<char>)
    ensures
        join_with(seq![a, b], sep) == a + sep + b,
{
    assert(seq![a, b].drop_last() =~= seq![a]);
    assert(join_with(seq![a], sep) == a);
}

/// The line `key = value` with its newline.
pub fn format_line(key: &str, value: &str) -> (r: String)
    ensures
        r@ == line_of(key@, value@),
{
    proof {
        reveal_strlit(" = ");
        reveal_strlit("\n");
    }
    let parts = vec![key.to_owned(), value.to_owned()];
    assert(string_views(parts@) =~= seq![key@, value@]);
    let pair = join(parts, " = ");
    assert(" = "@ =~= seq![' ', '=', ' ']);
    proof {
        lemma_join_two(key@, value@, " = "@);
    }
    assert(pair@ == key@ + " = "@ + value@);
    let ends = vec![pair, String::new()];
    assert(string_views(ends@) =~= seq![pair@, Seq::empty()]);
    let r = join(ends, "\n");
    assert("\n"@ =~= seq!['\n']);
    proof {
        lemma_join_two(pair@, Seq::empty(), "\n"@);
    }
    assert(r@ == pair@ + "\n"@ + Seq::<char>::empty());
    assert(r@ =~= line_of(key@, value@));
    r
}

/// Whether a trimmed line is empty or a comment (`#`, `//` or `/*`).
pub fn is_comment_line(line: &str) -> (r: bool)
    ensures
        r == is_comment_or_blank(line@),
{
    proof {
        reveal_strlit("#");
        reveal_strlit("//");
        reveal_strlit("/*");
    }
    if line.is_empty() {
        return true;
    }
    has_prefix(line, "#") || has_prefix(line, "//") || has_prefix(line, "/*")
}

/// Reads one line: blank and comment lines hold nothing; otherwise the key and
/// the value are the trimmed text before and after the first `=`.
pub fn parse_line(line: &str) -> (r: ParsedLine)
    ensures
        r.matches_line(line@),
{
    let t = trim_space(line);
    if is_comment_line(t.as_str()) {
        return ParsedLine::Ignored;
    }
    proof {
        reveal_strlit("=");
    }
    let (before, after, found) = cut(t.as_str(), "=");
    if !found {
        return ParsedLine::Malformed;
    }
    let key = trim_space(before.as_str());
    let value = trim_space(after.as_str());
    ParsedLine::Entry(key, value)
}

} // verus!
