//! Regular-expression tests that classify markdown text, through the `regex` crate.
use vstd::prelude::*;
use crate::text::has_prefix;

verus! {

/// What `regex::Regex::new(pattern)` followed by `is_match(haystack)` gives:
/// `None` when the pattern does not compile, else whether the pattern matches
/// anywhere in the haystack.
pub uninterp spec fn regex_match(pattern: Seq<char>, haystack: Seq<char>) -> Option<bool>;

/// The pattern of an inline image, `![alt](src)`.
pub open spec fn image_pattern() -> Seq<char> {
    r"!\[.*\]\(.*\)"@
}

/// The pattern of an inline link, `[text](href)`.
pub open spec fn link_pattern() -> Seq<char> {
    r"\[.*\]\(.*\)"@
}

/// The pattern of an unordered list item, `* ` at the start of the line.
pub open spec fn bullet_pattern() -> Seq<char> {
    r"^\* "@
}

/// The pattern of an ordered list item, digits, a dot and a space at the start of the line.
pub open spec fn ordered_pattern() -> Seq<char> {
    r"^\d+\. "@
}

/// `s` begins with one or more ASCII digits, a dot and a space.
pub open spec fn ascii_numbered(s: Seq<char>) -> bool {
    exists|k: int|
        #![trigger s[k]]
        1 <= k && k + 2 <= s.len() && (forall|i: int| 0 <= i < k ==> '0' <= #[trigger] s[i] <= '9')
            && s[k] == '.' && s[k + 1] == ' '
}

/// No new line in `s[lo..hi]`: what the regex `.*` can span.
pub open spec fn line_free(s: Seq<char>, lo: int, hi: int) -> bool {
    forall|k: int| lo <= k < hi ==> s[k] != '\n'
}

/// `s` holds `![..](..)` somewhere, with no new line inside the brackets or parentheses.
pub open spec fn image_shape(s: Seq<char>) -> bool {
    exists|i: int, j: int, k: int|
        #![trigger s[i], s[j], s[k]]
        0 <= i && i + 2 <= j && j + 2 <= k && k < s.len() && s[i] == '!' && s[i + 1] == '['
            && s[j] == ']' && s[j + 1] == '(' && s[k] == ')' && line_free(s, i + 2, j)
            && line_free(s, j + 2, k)
}

/// `s` holds `[..](..)` somewhere, with no new line inside the brackets or parentheses.
pub open spec fn link_shape(s: Seq<char>) -> bool {
    exists|i: int, j: int, k: int|
        #![trigger s[i], s[j], s[k]]
        0 <= i && i + 1 <= j && j + 2 <= k && k < s.len() && s[i] == '[' && s[j] == ']'
            && s[j + 1] == '(' && s[k] == ')' && line_free(s, i + 1, j) && line_free(s, j + 2, k)
}

/// Compiles `pattern` with `regex::Regex::new` and, when it compiles, asks
/// `Regex::is_match` whether it matches anywhere in `haystack` (`None` when it
/// does not compile). The contract names the result `regex_match`, and states
/// it for three of the patterns this library uses, as the regex syntax
/// documents them: `.` is any character but a new line, `\[ \] \( \) \*` are
/// the literal characters, and `^` anchors at the start of the haystack. Of
/// the ordered-list pattern it states that it matches a haystack that begins
/// with ASCII digits, a dot and a space, since `\d` takes in the digits 0 to 9
/// (it also takes in the other Unicode decimal digits, which is left unsaid).
#[verifier::external_body]
pub(crate) fn regex_is_match(pattern: &str, haystack: &str) -> (res: Option<bool>)
    ensures
        res == regex_match(pattern@, haystack@),
        pattern@ == image_pattern() ==> res == Some(image_shape(haystack@)),
        pattern@ == link_pattern() ==> res == Some(link_shape(haystack@)),
        pattern@ == bullet_pattern() ==> res == Some(has_prefix(haystack@, seq!['*', ' '])),
        pattern@ == ordered_pattern() && ascii_numbered(haystack@) ==> res == Some(true),
{
    match regex::Regex::new(pattern) {
        Ok(re) => Some(re.is_match(haystack)),
        Err(_) => None,
    }
}

/// Whether `pattern` compiles and matches somewhere in `haystack`.
pub fn pattern_matches(pattern: &str, haystack: &str) -> (res: bool)
    ensures
        res == (regex_match(pattern@, haystack@) == Some(true)),
        pattern@ == image_pattern() ==> res == image_shape(haystack@),
        pattern@ == link_pattern() ==> res == link_shape(haystack@),
        pattern@ == bullet_pattern() ==> res == has_prefix(haystack@, seq!['*', ' ']),
        pattern@ == ordered_pattern() && ascii_numbered(haystack@) ==> res,
{
    match regex_is_match(pattern, haystack) {
        Some(b) => b,
        None => false,
    }
}

} // verus!
