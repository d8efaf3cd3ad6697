//! Comparisons of text.

use vstd::prelude::*;
use vstd::string::StrSliceExecFns;

verus! {

/// Whether `part` stands in `text` at the position `start`.
fn stands_at(text: &str, part: &str, start: usize) -> (found: bool)
    requires
        start + part@.len() <= text@.len() <= usize::MAX,
    ensures
        found == (part@ =~= text@.subrange(start as int, start + part@.len())),
{
    let len: usize = part.unicode_len();
    let mut i: usize = 0;
    while i < len
        invariant
            len == part@.len(),
            i <= len,
            start + len <= text@.len(),
            start + len <= usize::MAX,
            forall|k: int| 0 <= k < i ==> #[trigger] part@[k] == text@[start + k],
        decreases len - i,
    {
        if part.get_char(i) != text.get_char(start + i) {
            assert(part@[i as int] != text@.subrange(start as int, start + len)[i as int]);
            return false;
        }
        i = i + 1;
    }
    assert(part@ =~= text@.subrange(start as int, start + part@.len()));
    true
}

/// Whether `text` begins with `prefix`.
pub fn starts_with(text: &str, prefix: &str) -> (found: bool)
    ensures
        found == prefix@.is_prefix_of(text@),
{
    if prefix.unicode_len() <= text.unicode_len() {
        stands_at(text, prefix, 0)
    } else {
        false
    }
}

/// Whether `text` ends with `suffix`.
pub fn ends_with(text: &str, suffix: &str) -> (found: bool)
    ensures
        found == suffix@.is_suffix_of(text@),
{
    let text_len: usize = text.unicode_len();
    let len: usize = suffix.unicode_len();
    if len <= text_len {
        stands_at(text, suffix, text_len - len)
    } else {
        false
    }
}

/// Whether the two texts are the same.
pub fn same_text(a: &str, b: &str) -> (same: bool)
    ensures
        same == (a@ == b@),
{
    if a.unicode_len() == b.unicode_len() {
        let same = stands_at(a, b, 0);
        assert(a@ =~= a@.subrange(0, a@.len() as int));
        same
    } else {
        false
    }
}

} // verus!
