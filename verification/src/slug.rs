//! Slug validation: the guard that stands between a caller-supplied path
//! segment and the filesystem.

use vstd::prelude::*;

verus! {

/// Characters a slug may contain: ASCII letters, digits, `-` and `_`.
pub open spec fn slug_char(c: char) -> bool {
    ||| 'a' as u32 <= c as u32 && c as u32 <= 'z' as u32
    ||| 'A' as u32 <= c as u32 && c as u32 <= 'Z' as u32
    ||| '0' as u32 <= c as u32 && c as u32 <= '9' as u32
    ||| c == '-'
    ||| c == '_'
}

/// A slug is eligible for lookup when it is 1 to 128 characters long and
/// every character is a slug character.
pub open spec fn valid_slug(s: Seq<char>) -> bool {
    &&& 1 <= s.len() <= 128
    &&& forall|i: int| 0 <= i < s.len() ==> slug_char(#[trigger] s[i])
}

/// A valid slug cannot traverse the filesystem: it holds no path separator
/// and no dot, so neither `/` nor `..` can be smuggled into a file path
/// built from it.
pub proof fn lemma_valid_slug_no_traversal(s: Seq<char>)
    requires
        valid_slug(s),
    ensures
        forall|i: int| 0 <= i < s.len() ==> #[trigger] s[i] != '/',
        forall|i: int| 0 <= i < s.len() ==> #[trigger] s[i] != '.',
        forall|i: int| 0 <= i < s.len() ==> #[trigger] s[i] != '\\',
{
    assert forall|i: int| 0 <= i < s.len() implies #[trigger] s[i] != '/' && s[i] != '.' && s[i]
        != '\\' by {
        assert(slug_char(s[i]));
    }
}

/// Decides whether a caller-supplied slug may be used to name a post file.
pub fn is_valid_slug(slug: &str) -> (b: bool)
    ensures
        b == valid_slug(slug@),
{
    let n: usize = slug.unicode_len();
    if n == 0 || n > 128 {
        return false;
    }
    let mut i: usize = 0;
    while i < n
        invariant
            0 <= i <= n,
            n == slug@.len(),
            1 <= n <= 128,
            forall|j: int| 0 <= j < i ==> slug_char(#[trigger] slug@[j]),
        decreases n - i,
    {
        let c = slug.get_char(i);
        let v = c as u32;
        let ok = (97 <= v && v <= 122) || (65 <= v && v <= 90) || (48 <= v && v <= 57) || c == '-'
            || c == '_';
        if !ok {
            return false;
        }
        i = i + 1;
    }
    true
}

} // verus!
