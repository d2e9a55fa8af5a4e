//! Text helpers as methods on `str`.
use vstd::prelude::*;

verus! {

/// The characters that `char::to_uppercase` yields for a character.
pub uninterp spec fn uppercase_mapping(c: char) -> Seq<char>;

/// `char::to_uppercase`, collected into a `String`: the result is the
/// character's Unicode uppercase mapping, one or more characters as the
/// documentation says, a function of the character alone; the table itself
/// is not restated.
#[verifier::external_body]
pub(crate) fn to_uppercase(c: char) -> (r: String)
    ensures
        r@ == uppercase_mapping(c),
        r@.len() >= 1,
{
    c.to_uppercase().collect::<String>()
}

/// A text with its first character in upper case (empty stays empty).
pub open spec fn capitalized(s: Seq<char>) -> Seq<char> {
    if s.len() == 0 {
        Seq::empty()
    } else {
        uppercase_mapping(s[0]) + s.skip(1)
    }
}

/// Text operations.
pub trait StrExt: View<V = Seq<char>> {
    /// The text with its first character in upper case, the rest unchanged.
    fn capitalize_first(&self) -> (r: String)
        ensures
            r@ == capitalized(self@),
    ;
}

impl StrExt for str {
    fn capitalize_first(&self) -> (r: String) {
        let n = self.unicode_len();
        if n == 0 {
            return String::new();
        }
        let first = self.get_char(0);
        let rest = self.substring_char(1, n);
        let mut r = to_uppercase(first);
        r.append(rest);
        assert(self@.subrange(1, n as int) =~= self@.skip(1));
        r
    }
}

} // verus!
