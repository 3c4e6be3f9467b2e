//! The aggregator: collect per-frame recognition results, arriving in
//! arbitrary order across workers, into a dense text buffer indexed by
//! frame index, and know when every frame's result has arrived.

use crate::text::{normalize_text, strip_spaces};
use vstd::pervasive::VecAdditionalExecFns;
use vstd::prelude::*;

verus! {

/// How many entries of a flag sequence are set.
pub open spec fn count_true(s: Seq<bool>) -> int
    decreases s.len(),
{
    if s.len() == 0 {
        0
    } else {
        count_true(s.drop_last()) + if s.last() {
            1int
        } else {
            0int
        }
    }
}

proof fn lemma_count_true_le_len(s: Seq<bool>)
    ensures
        0 <= count_true(s) <= s.len(),
    decreases s.len(),
{
    if s.len() > 0 {
        lemma_count_true_le_len(s.drop_last());
    }
}

proof fn lemma_count_true_update(s: Seq<bool>, i: int)
    requires
        0 <= i < s.len(),
        !s[i],
    ensures
        count_true(s.update(i, true)) == count_true(s) + 1,
    decreases s.len(),
{
    let t = s.update(i, true);
    if i == s.len() - 1 {
        assert(t.drop_last() =~= s.drop_last());
    } else {
        assert(t.drop_last() =~= s.drop_last().update(i, true));
        lemma_count_true_update(s.drop_last(), i);
    }
}

proof fn lemma_count_true_full(s: Seq<bool>)
    requires
        count_true(s) == s.len(),
    ensures
        forall|i: int| 0 <= i < s.len() ==> s[i],
    decreases s.len(),
{
    if s.len() > 0 {
        lemma_count_true_le_len(s.drop_last());
        lemma_count_true_full(s.drop_last());
        assert forall|i: int| 0 <= i < s.len() implies s[i] by {
            if i < s.len() - 1 {
                assert(s.drop_last()[i]);
            }
        }
    }
}

/// The aggregator and its dense text buffer.
///
/// `texts` is pre-sized to `total + 1` entries, initially all empty; each
/// recorded result writes its normalized text at its frame index, at most
/// once per index. `written` marks the indices recorded so far, `received`
/// counts them, and the ghost `log` keeps, for each recorded index, the
/// normalized text of the one result recorded there.
pub struct Aggregator {
    pub texts: Vec<String>,
    pub written: Vec<bool>,
    pub received: usize,
    pub total: usize,
    pub log: Ghost<Map<int, Seq<char>>>,
}

impl Aggregator {
    /// The aggregator's invariant, established by `new` and preserved by
    /// `record`: the buffer is dense, an index is in the log exactly when
    /// its flag is set, a recorded index holds its logged text, and an
    /// unrecorded one is still empty.
    pub open spec fn wf(&self) -> bool {
        &&& self.texts@.len() == self.total + 1
        &&& self.written@.len() == self.total
        &&& self.received == count_true(self.written@)
        &&& forall|i: int|
            0 <= i < self.total ==> (self.log@.dom().contains(i) <==> #[trigger] self.written@[i])
        &&& forall|i: int|
            0 <= i < self.total && self.written@[i] ==> (#[trigger] self.texts@[i])@
                == self.log@[i]
        &&& forall|i: int|
            0 <= i < self.total && !self.written@[i] ==> (#[trigger] self.texts@[i])@.len() == 0
        &&& (self.texts@[self.total as int])@.len() == 0
    }

    /// A fresh aggregator expecting one result per index in
    /// `[0, total_frames)`, with every buffer entry empty.
    pub fn new(total_frames: usize) -> (a: Aggregator)
        requires
            total_frames < usize::MAX,
        ensures
            a.wf(),
            a.total == total_frames,
            a.received == 0,
            a.log@ == Map::<int, Seq<char>>::empty(),
            forall|i: int| 0 <= i < total_frames ==> !(#[trigger] a.written@[i]),
    {
        let mut texts: Vec<String> = Vec::new();
        let mut k: usize = 0;
        while k < total_frames + 1
            invariant
                total_frames < usize::MAX,
                k <= total_frames + 1,
                texts@.len() == k,
                forall|i: int| 0 <= i < k ==> (#[trigger] texts@[i])@.len() == 0,
            decreases total_frames + 1 - k,
        {
            texts.push(String::new());
            k += 1;
        }
        let mut written: Vec<bool> = Vec::new();
        let mut m: usize = 0;
        while m < total_frames
            invariant
                m <= total_frames,
                written@.len() == m,
                count_true(written@) == 0,
                forall|i: int| 0 <= i < m ==> !(#[trigger] written@[i]),
            decreases total_frames - m,
        {
            let ghost pre = written@;
            written.push(false);
            proof {
                assert(written@.drop_last() =~= pre);
            }
            m += 1;
        }
        Aggregator { texts, written, received: 0, total: total_frames, log: Ghost(Map::empty()) }
    }

    /// Record one recognition result: normalize its text and write it at
    /// its frame index. Returns whether the result was recorded; a result
    /// whose index is out of range, or whose index was already recorded,
    /// is refused and changes nothing.
    pub fn record(&mut self, index: usize, text: &str) -> (ok: bool)
        requires
            old(self).wf(),
        ensures
            final(self).wf(),
            final(self).total == old(self).total,
            ok <==> (index < old(self).total && !old(self).written@[index as int]),
            ok ==> final(self).log@ == old(self).log@.insert(index as int, strip_spaces(text@)),
            ok ==> final(self).received == old(self).received + 1,
            ok ==> final(self).written@ == old(self).written@.update(index as int, true),
            ok ==> (final(self).texts@[index as int])@ == strip_spaces(text@),
            ok ==> forall|i: int|
                0 <= i < old(self).texts@.len() && i != index ==> final(self).texts@[i] == old(
                    self,
                ).texts@[i],
            !ok ==> *final(self) == *old(self),
    {
        if index >= self.total {
            return false;
        }
        let already: bool = self.written[index];
        if already {
            return false;
        }
        proof {
            lemma_count_true_le_len(self.written@);
            lemma_count_true_update(self.written@, index as int);
            lemma_count_true_le_len(self.written@.update(index as int, true));
        }
        let normalized = normalize_text(text);
        self.texts.set(index, normalized);
        self.written.set(index, true);
        self.received = self.received + 1;
        let ghost new_log = self.log@.insert(index as int, strip_spaces(text@));
        self.log = Ghost(new_log);
        true
    }

    /// Whether aggregation has terminated: exactly `total` results have
    /// been recorded, one per distinct index in `[0, total)`.
    pub fn is_complete(&self) -> (r: bool)
        requires
            self.wf(),
        ensures
            r <==> self.received == self.total,
    {
        self.received == self.total
    }

    /// Hand the completed buffer over for segmentation: the dense per-frame
    /// texts, one entry per index in `[0, total)`.
    pub fn finish(self) -> (v: Vec<String>)
        requires
            self.wf(),
        ensures
            v@.len() == self.total,
            forall|i: int| 0 <= i < self.total ==> v@[i] == self.texts@[i],
    {
        let mut texts = self.texts;
        let _spare = texts.pop();
        texts
    }
}

/// Index integrity: once `total` results are recorded, every index in
/// `[0, total)` was recorded — and, by `record`'s refusal of duplicates,
/// recorded exactly once — and the buffer holds at `i` the normalized text
/// of the one result whose index was `i`.
pub proof fn lemma_index_integrity(a: &Aggregator)
    requires
        a.wf(),
        a.received == a.total,
    ensures
        forall|i: int| 0 <= i < a.total ==> #[trigger] a.log@.dom().contains(i),
        forall|i: int| 0 <= i < a.total ==> (#[trigger] a.texts@[i])@ == a.log@[i],
{
    lemma_count_true_full(a.written@);
    assert forall|i: int| 0 <= i < a.total implies #[trigger] a.log@.dom().contains(i) by {
        assert(a.written@[i]);
    }
    assert forall|i: int| 0 <= i < a.total implies (#[trigger] a.texts@[i])@ == a.log@[i] by {
        assert(a.written@[i]);
    }
}

} // verus!
