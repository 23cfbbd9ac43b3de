//! Splitting a text into tokens, and the normal form a token is counted under.
use vstd::prelude::*;

verus! {

/// The characters at which a text is split into tokens.
pub open spec fn is_separator(c: char) -> bool {
    c == ' ' || c == ',' || c == '.' || c == '!' || c == '?' || c == ';' || c == '\''
        || c == '"' || c == ':' || c == '\t' || c == '\n' || c == '(' || c == ')' || c == '-'
}

/// The pieces of `s` between separators, in order, empty pieces included:
/// a text with `k` separators has `k + 1` pieces.
pub open spec fn pieces(s: Seq<char>) -> Seq<Seq<char>>
    decreases s.len(),
{
    if s.len() == 0 {
        seq![Seq::empty()]
    } else {
        let before = pieces(s.drop_last());
        let c = s.last();
        if is_separator(c) {
            before.push(Seq::empty())
        } else {
            before.update(before.len() - 1, before.last().push(c))
        }
    }
}

/// The tokens of a text: its non-empty pieces, in order.
pub open spec fn tokens_of(s: Seq<char>) -> Seq<Seq<char>> {
    pieces(s).filter(|p: Seq<char>| p.len() > 0)
}

/// Relies on natural::tokenize::tokenize, which splits the text at the
/// separator characters and drops the empty pieces.
#[verifier::external_body]
pub(crate) fn split_tokens<'a>(text: &'a str) -> (r: Vec<&'a str>)
    ensures
        r@.len() == tokens_of(text@).len(),
        forall|i: int| 0 <= i < r@.len() ==> r@[i]@ == #[trigger] tokens_of(text@)[i],
{
    natural::tokenize::tokenize(text)
}

/// The characters with the Unicode `White_Space` property, which
/// `char::is_whitespace` reports.
pub open spec fn is_whitespace(c: char) -> bool {
    let u = c as u32;
    (0x09 <= u && u <= 0x0d) || u == 0x20 || u == 0x85 || u == 0xa0 || u == 0x1680
        || (0x2000 <= u && u <= 0x200a) || u == 0x2028 || u == 0x2029 || u == 0x202f
        || u == 0x205f || u == 0x3000
}

/// The text without its leading whitespace.
pub open spec fn trimmed_start(s: Seq<char>) -> Seq<char>
    decreases s.len(),
{
    if s.len() > 0 && is_whitespace(s[0]) {
        trimmed_start(s.drop_first())
    } else {
        s
    }
}

/// The text without its trailing whitespace.
pub open spec fn trimmed_end(s: Seq<char>) -> Seq<char>
    decreases s.len(),
{
    if s.len() > 0 && is_whitespace(s.last()) {
        trimmed_end(s.drop_last())
    } else {
        s
    }
}

/// The text without its leading and trailing whitespace.
pub open spec fn trimmed(s: Seq<char>) -> Seq<char> {
    trimmed_end(trimmed_start(s))
}

/// A character with its ASCII upper-case letters mapped to lower case.
pub open spec fn ascii_lower(c: char) -> char {
    if 'A' <= c && c <= 'Z' {
        ((c as u32) + 32) as char
    } else {
        c
    }
}

/// A text made of ASCII characters only.
pub open spec fn is_ascii_text(s: Seq<char>) -> bool {
    forall|i: int| 0 <= i < s.len() ==> (#[trigger] s[i] as u32) < 0x80
}

/// What unicase's folding gives for a piece of text: its characters mapped to
/// their case-folded form.
pub uninterp spec fn folded(s: Seq<char>) -> Seq<char>;

/// The form under which a token is counted and a word is looked up.
pub open spec fn normal_form(t: Seq<char>) -> Seq<char> {
    folded(trimmed(t))
}

/// The normal forms of a sequence of tokens.
pub open spec fn normals_of(toks: Seq<Seq<char>>) -> Seq<Seq<char>> {
    toks.map_values(|t: Seq<char>| normal_form(t))
}

/// The tokens of a text in the form in which they are counted.
pub open spec fn normalized_tokens(s: Seq<char>) -> Seq<Seq<char>> {
    normals_of(tokens_of(s))
}

/// Relies on str::trim: the text with the leading and trailing characters for
/// which `char::is_whitespace` holds removed.
#[verifier::external_body]
pub(crate) fn trim_token<'a>(s: &'a str) -> (r: &'a str)
    ensures
        r@ == trimmed(s@),
{
    s.trim()
}

/// Relies on unicase::UniCase::to_folded_case: the text with each character
/// mapped to its case-folded form (ASCII lowercase for an ASCII text).
#[verifier::external_body]
pub(crate) fn fold_case(s: &str) -> (r: String)
    ensures
        r@ == folded(s@),
        is_ascii_text(s@) ==> r@ == s@.map_values(|c: char| ascii_lower(c)),
{
    unicase::UniCase::new(s).to_folded_case()
}

} // verus!
