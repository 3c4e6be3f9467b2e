//! The fuzzy-equality test between per-frame texts: how many character
//! positions a longest-common-subsequence-style alignment marks as present
//! in both texts. A run of frames continues while this count is nonzero.

use vstd::prelude::*;

verus! {

/// One aligned fragment of a character-level diff of two texts.
#[derive(Clone, Copy, PartialEq, Eq, Structural)]
pub enum CharDiff {
    /// A character only in the left text.
    Left(char),
    /// A pair of characters the alignment marks as present in both texts.
    Both(char, char),
    /// A character only in the right text.
    Right(char),
}

/// The character-level alignment computed for two texts. Named, not
/// restated: it depends on the two texts alone, and only the count of its
/// `Both` fragments matters to the pipeline.
pub uninterp spec fn char_diff(left: Seq<char>, right: Seq<char>) -> Seq<CharDiff>;

/// Relies on `diff::chars` of the diff crate: computes a character-level
/// longest-common-subsequence alignment of the two texts, a pure function
/// of the two texts alone. The body only renames the crate's fragment enum
/// into `CharDiff`, variant for variant.
#[verifier::external_body]
fn diff_chars(left: &str, right: &str) -> (r: Vec<CharDiff>)
    ensures
        r@ == char_diff(left@, right@),
{
    diff::chars(left, right)
        .into_iter()
        .map(|d| match d {
            diff::Result::Left(c) => CharDiff::Left(c),
            diff::Result::Both(a, b) => CharDiff::Both(a, b),
            diff::Result::Right(c) => CharDiff::Right(c),
        })
        .collect()
}

/// How many fragments of an alignment are aligned pairs.
pub open spec fn count_both(d: Seq<CharDiff>) -> int
    decreases d.len(),
{
    if d.len() == 0 {
        0
    } else {
        count_both(d.drop_last()) + if d.last() is Both {
            1int
        } else {
            0int
        }
    }
}

/// The matched-character count between two texts: how many character
/// positions the alignment marks as matching.
pub open spec fn matched_count(left: Seq<char>, right: Seq<char>) -> int {
    count_both(char_diff(left, right))
}

/// Whether `right` still displays the same subtitle line as `left`, as the
/// run-segmentation judges it: the two texts share at least one matched
/// character position under the alignment.
pub open spec fn texts_similar(left: Seq<char>, right: Seq<char>) -> bool {
    matched_count(left, right) != 0
}

/// Count the character positions that the alignment of the two texts marks
/// as present in both.
pub fn matched_chars(left: &str, right: &str) -> (n: usize)
    ensures
        n == matched_count(left@, right@),
{
    let d = diff_chars(left, right);
    let len = d.len();
    let mut n: usize = 0;
    let mut i: usize = 0;
    while i < len
        invariant
            len == d@.len(),
            i <= len,
            n <= i,
            n == count_both(d@.take(i as int)),
        decreases len - i,
    {
        let is_both: bool = match d[i] {
            CharDiff::Both(_, _) => true,
            _ => false,
        };
        if is_both {
            n = n + 1;
        }
        proof {
            let cur = d@.take(i + 1int);
            assert(cur.drop_last() =~= d@.take(i as int));
            assert(cur.last() == d@[i as int]);
        }
        i += 1;
    }
    proof {
        assert(d@.take(len as int) =~= d@);
    }
    n
}

/// Decide whether `right` continues a run anchored at `left`: true exactly
/// when the matched-character count of the two texts is nonzero.
pub fn is_similar(left: &str, right: &str) -> (r: bool)
    ensures
        r == texts_similar(left@, right@),
{
    matched_chars(left, right) != 0
}

} // verus!
