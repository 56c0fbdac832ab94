use vstd::prelude::*;
use vstd::utf8::is_ascii_chars;

verus! {

/// What `str::to_lowercase` returns for the given characters.
pub uninterp spec fn lower_of(s: Seq<char>) -> Seq<char>;

/// ASCII case folding of a single character.
pub open spec fn ascii_lower_char(c: char) -> char {
    if 'A' <= c && c <= 'Z' {
        ((c as u32) + 32) as char
    } else {
        c
    }
}

/// ASCII case folding of every character of `s`.
pub open spec fn ascii_lower(s: Seq<char>) -> Seq<char> {
    Seq::new(s.len(), |i: int| ascii_lower_char(s[i]))
}

/// Relies on `str::to_lowercase`: the result depends on the characters
/// alone, and on ASCII input each letter is mapped to its lower-case form.
#[verifier::external_body]
fn lowercase(s: &str) -> (r: String)
    ensures
        r@ == lower_of(s@),
        is_ascii_chars(s@) ==> r@ == ascii_lower(s@),
{
    s.to_lowercase()
}

/// The registry key of a workspace path: the path folded to lower case, so
/// that paths that differ only in letter case name the same workspace.
pub fn instance_key(path: &str) -> (r: String)
    ensures
        r@ == lower_of(path@),
        is_ascii_chars(path@) ==> r@ == ascii_lower(path@),
{
    lowercase(path)
}

} // verus!
