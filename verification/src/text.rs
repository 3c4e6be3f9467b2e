//! Text normalization applied to recognized text before it is stored.

use vstd::prelude::*;

verus! {

/// The normalized form of a recognized text: the same characters in the same
/// order, with every space character removed.
pub open spec fn strip_spaces(s: Seq<char>) -> Seq<char> {
    s.filter(|c: char| c != ' ')
}

/// Relies on `String::push` from std: appends the character to the end of
/// the string.
#[verifier::external_body]
fn push_char(s: &mut String, c: char)
    ensures
        final(s)@ == old(s)@.push(c),
{
    s.push(c)
}

/// Normalize a recognized text by removing every space character.
///
/// This is the normalization policy applied by the aggregator before a text
/// is stored in the text buffer.
pub fn normalize_text(s: &str) -> (r: String)
    ensures
        r@ == strip_spaces(s@),
{
    let n = s.unicode_len();
    let mut r = String::new();
    let mut i: usize = 0;
    while i < n
        invariant
            n == s@.len(),
            i <= n,
            r@ == strip_spaces(s@.take(i as int)),
        decreases n - i,
    {
        let c = s.get_char(i);
        if c != ' ' {
            push_char(&mut r, c);
        }
        proof {
            reveal(Seq::filter);
            let pre = s@.take(i as int);
            let cur = s@.take(i + 1int);
            assert(cur.drop_last() =~= pre);
            assert(cur.last() == s@[i as int]);
        }
        i += 1;
    }
    proof {
        assert(s@.take(n as int) =~= s@);
    }
    r
}

/// Whether a character lies in the basic block of CJK unified ideographs.
pub open spec fn spec_is_chinese_char(ch: char) -> bool {
    0x4e00 <= ch as u32 <= 0x9fff
}

/// Report whether a character lies in the basic block of CJK unified
/// ideographs.
pub fn is_chinese_char(ch: char) -> (r: bool)
    ensures
        r == spec_is_chinese_char(ch),
{
    let u: u32 = ch as u32;
    0x4e00 <= u && u <= 0x9fff
}

} // verus!
