//! Immutable content identifiers: forty lower-case hexadecimal digits.

use vstd::prelude::*;
use crate::text::to_chars;

verus! {

/// The length of an immutable content identifier, in characters.
pub const COMMIT_ID_LEN: usize = 40;

/// Whether `c` is a hexadecimal digit in lower case: `0` to `9` or `a` to `f`.
pub open spec fn is_lower_hex(c: char) -> bool {
    ('0' <= c && c <= '9') || ('a' <= c && c <= 'f')
}

/// Whether `s` is an immutable content identifier: exactly forty characters,
/// each a hexadecimal digit in lower case.
pub open spec fn is_commit_id(s: Seq<char>) -> bool {
    &&& s.len() == COMMIT_ID_LEN
    &&& forall|i: int| 0 <= i < s.len() ==> is_lower_hex(#[trigger] s[i])
}

/// Tells whether a character is a hexadecimal digit in lower case.
pub fn is_lower_hex_char(c: char) -> (r: bool)
    ensures
        r == is_lower_hex(c),
{
    ('0' <= c && c <= '9') || ('a' <= c && c <= 'f')
}

/// Tells whether the characters form an immutable content identifier.
pub fn is_commit_sha_chars(chars: &[char]) -> (r: bool)
    ensures
        r == is_commit_id(chars@),
{
    if chars.len() != COMMIT_ID_LEN {
        return false;
    }
    let mut i: usize = 0;
    while i < chars.len()
        invariant
            i <= chars.len(),
            forall|j: int| 0 <= j < i ==> is_lower_hex(#[trigger] chars@[j]),
        decreases chars.len() - i,
    {
        if !is_lower_hex_char(chars[i]) {
            return false;
        }
        i += 1;
    }
    true
}

/// Tells whether a string is an immutable content identifier. Nothing is
/// trimmed or folded: upper-case digits and any other length are refused.
pub fn is_commit_sha(s: &str) -> (r: bool)
    ensures
        r == is_commit_id(s@),
{
    let chars = to_chars(s);
    is_commit_sha_chars(chars.as_slice())
}

} // verus!
