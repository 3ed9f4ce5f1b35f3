use vstd::prelude::*;

use crate::text;

verus! {

/// The first capture group of the leftmost match of a pattern in a text, as the
/// `regex` crate finds it: `None` where the pattern is refused, where nothing
/// matches, and where the group takes no part in the match.
pub uninterp spec fn first_group(pattern: Seq<char>, text: Seq<char>) -> Option<Seq<char>>;

/// The first capture groups of the successive matches of a pattern in a text, as
/// the `regex` crate finds them, `None` for a group that takes no part in its
/// match; no list at all where the pattern is refused.
pub uninterp spec fn all_groups(pattern: Seq<char>, text: Seq<char>) -> Option<
    Seq<Option<Seq<char>>>,
>;

/// The texts of a list of optional strings.
pub open spec fn opt_list(v: Seq<Option<String>>) -> Seq<Option<Seq<char>>> {
    v.map_values(|s: Option<String>| text::opt_text(s))
}

/// What an optional list of optional strings holds.
pub open spec fn opt_groups(v: Option<Vec<Option<String>>>) -> Option<Seq<Option<Seq<char>>>> {
    match v {
        Some(groups) => Some(opt_list(groups@)),
        None => None,
    }
}

/// `regex::Regex::captures` with the pattern that `regex::Regex::new` makes: the
/// first capture group of the leftmost match.
#[verifier::external_body]
pub(crate) fn capture_first(pattern: &str, text: &str) -> (r: Option<String>)
    ensures
        text::opt_text(r) == first_group(pattern@, text@),
{
    let re = regex::Regex::new(pattern).ok()?;
    let caps = re.captures(text)?;
    caps.get(1).map(|m| m.as_str().to_string())
}

/// `regex::Regex::captures_iter` with the pattern that `regex::Regex::new` makes:
/// the first capture group of each match.
#[verifier::external_body]
pub(crate) fn capture_all(pattern: &str, text: &str) -> (r: Option<Vec<Option<String>>>)
    ensures
        opt_groups(r) == all_groups(pattern@, text@),
{
    let re = regex::Regex::new(pattern).ok()?;
    Some(re.captures_iter(text).map(|c| c.get(1).map(|m| m.as_str().to_string())).collect())
}

/// The characters that mean something in a pattern.
pub open spec fn is_meta_character(c: char) -> bool {
    "\\.+*?()|[]{}^$#&-~"@.contains(c)
}

/// A text in which a backslash stands in front of each character that means
/// something in a pattern.
pub open spec fn escaped(s: Seq<char>) -> Seq<char>
    decreases s.len(),
{
    if s.len() == 0 {
        Seq::empty()
    } else if is_meta_character(s.last()) {
        escaped(s.drop_last()).push('\\').push(s.last())
    } else {
        escaped(s.drop_last()).push(s.last())
    }
}

/// `regex::escape` puts a backslash in front of each character that means
/// something in a pattern and keeps the others.
#[verifier::external_body]
pub(crate) fn escape(text: &str) -> (r: String)
    ensures
        r@ == escaped(text@),
{
    regex::escape(text)
}

/// A list of captures holds its captures in their places.
pub proof fn lemma_opt_list(v: Vec<Option<String>>)
    ensures
        opt_list(v@).len() == v@.len(),
        forall|i: int| 0 <= i < v@.len() ==> #[trigger] opt_list(v@)[i] == text::opt_text(v@[i]),
        opt_groups(Some(v)) == Some(opt_list(v@)),
        opt_groups(None) is None,
{
}

} // verus!
