//! The form of a release revision.

use vstd::prelude::*;

use crate::digest::{is_hex_digit, is_lower_hex};
use crate::text::chars_of;

verus! {

/// Whether `revision` is a full lowercase commit name: forty lowercase hexadecimal digits.
pub open spec fn is_release_revision(revision: Seq<char>) -> bool {
    revision.len() == 40 && forall|i: int| 0 <= i < 40 ==> is_lower_hex(#[trigger] revision[i])
}

/// Returns whether `revision` is exactly forty lowercase hexadecimal digits.
pub fn is_valid_release_revision(revision: &str) -> (valid: bool)
    ensures
        valid == is_release_revision(revision@),
{
    let chars = chars_of(revision);
    if chars.len() != 40 {
        return false;
    }
    let mut index: usize = 0;
    while index < chars.len()
        invariant
            chars@ == revision@,
            chars@.len() == 40,
            index <= 40,
            forall|i: int| 0 <= i < index ==> is_lower_hex(#[trigger] revision@[i]),
        decreases 40 - index,
    {
        if !is_hex_digit(chars[index]) {
            assert(!is_lower_hex(revision@[index as int]));
            return false;
        }
        index += 1;
    }
    true
}

} // verus!
