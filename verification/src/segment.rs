//! The segmenter: collapse the completed per-frame text buffer into
//! discrete subtitle spans by fuzzy run-length grouping, with a backward
//! merge of adjacent spans that carry the same representative text.

use crate::similarity::{is_similar, texts_similar};
use vstd::prelude::*;

verus! {

/// One extracted subtitle: the first and last frame (inclusive) on which
/// the text is judged to be displayed, and the text itself.
pub struct Subtitle {
    pub start_frame: usize,
    pub end_frame: usize,
    pub text: String,
}

/// A subtitle as a mathematical value: start frame, end frame, text.
pub open spec fn sub_view(s: Subtitle) -> (int, int, Seq<char>) {
    (s.start_frame as int, s.end_frame as int, s.text@)
}

/// A subtitle list as a sequence of mathematical values.
pub open spec fn subs_view(v: Seq<Subtitle>) -> Seq<(int, int, Seq<char>)> {
    v.map_values(|s: Subtitle| sub_view(s))
}

/// A text buffer as a sequence of character sequences.
pub open spec fn texts_view(v: Seq<String>) -> Seq<Seq<char>> {
    v.map_values(|s: String| s@)
}

/// Whether frame text `t` continues a run anchored at text `anchor`: the
/// frame is non-empty and still similar enough to the run's first frame.
pub open spec fn continues_run(anchor: Seq<char>, t: Seq<char>) -> bool {
    t.len() != 0 && texts_similar(anchor, t)
}

/// The last frame of the run anchored at `anchor` when scanning forward
/// from frame `j`: the scan stops, exclusive, at the first frame that is
/// empty or no longer similar to the anchor, or at the end of the buffer.
pub open spec fn run_end_from(buf: Seq<Seq<char>>, anchor: Seq<char>, j: int) -> int
    decreases buf.len() - j,
{
    if j < 0 || j >= buf.len() {
        j - 1
    } else if !continues_run(anchor, buf[j]) {
        j - 1
    } else {
        run_end_from(buf, anchor, j + 1)
    }
}

proof fn lemma_run_end_from_bounds(buf: Seq<Seq<char>>, anchor: Seq<char>, j: int)
    requires
        0 <= j <= buf.len(),
    ensures
        j - 1 <= run_end_from(buf, anchor, j) < buf.len(),
    decreases buf.len() - j,
{
    if j < buf.len() && continues_run(anchor, buf[j]) {
        lemma_run_end_from_bounds(buf, anchor, j + 1);
    }
}

proof fn lemma_run_end_from_members(buf: Seq<Seq<char>>, anchor: Seq<char>, j: int)
    requires
        0 <= j <= buf.len(),
    ensures
        forall|k: int|
            j <= k <= run_end_from(buf, anchor, j) ==> continues_run(anchor, #[trigger] buf[k]),
    decreases buf.len() - j,
{
    if j < buf.len() && continues_run(anchor, buf[j]) {
        lemma_run_end_from_members(buf, anchor, j + 1);
        lemma_run_end_from_bounds(buf, anchor, j + 1);
    }
}

/// How many frames of `buf[lo..=hi]` carry exactly the text `t`: the
/// occurrence count that the run's frequency bookkeeping assigns to `t`.
pub open spec fn freq(buf: Seq<Seq<char>>, lo: int, hi: int, t: Seq<char>) -> int
    decreases hi + 1 - lo,
{
    if lo > hi {
        0
    } else {
        freq(buf, lo, hi - 1, t) + if buf[hi] == t {
            1int
        } else {
            0int
        }
    }
}

/// The fold that selects a run's representative text: walk the run once,
/// replacing the candidate whenever a frame's text occurs strictly more
/// often in the run. A variant that ties with the candidate never replaces
/// it, so on equal counts the variant seen first wins.
pub open spec fn rep_from(
    buf: Seq<Seq<char>>,
    lo: int,
    hi: int,
    k: int,
    best: Seq<char>,
) -> Seq<char>
    decreases hi + 1 - k,
{
    if k < lo || k > hi {
        best
    } else if freq(buf, lo, hi, buf[k]) > freq(buf, lo, hi, best) {
        rep_from(buf, lo, hi, k + 1, buf[k])
    } else {
        rep_from(buf, lo, hi, k + 1, best)
    }
}

/// The representative text of the run `buf[lo..=hi]`: the variant with the
/// highest occurrence count, ties broken in favor of the variant whose
/// first occurrence comes earliest.
pub open spec fn rep_of(buf: Seq<Seq<char>>, lo: int, hi: int) -> Seq<char> {
    rep_from(buf, lo, hi, lo + 1, buf[lo])
}

/// One step of the backward merge: append the new span, unless the
/// previously emitted span carries the same text, in which case the two
/// collapse into one span keeping the earlier start and the later end.
pub open spec fn merge_push(
    acc: Seq<(int, int, Seq<char>)>,
    start: int,
    end: int,
    t: Seq<char>,
) -> Seq<(int, int, Seq<char>)> {
    if acc.len() > 0 && acc.last().2 == t {
        acc.update(acc.len() - 1, (acc.last().0, end, t))
    } else {
        acc.push((start, end, t))
    }
}

/// The subtitles that scanning `buf` from frame `i` onward appends to the
/// spans already emitted: empty frames are skipped, every non-empty frame
/// starts a run extended while frames stay similar to its first frame, and
/// each run contributes its representative text through the backward merge.
pub open spec fn segment_from(
    buf: Seq<Seq<char>>,
    i: int,
    acc: Seq<(int, int, Seq<char>)>,
) -> Seq<(int, int, Seq<char>)>
    decreases buf.len() - i,
    via segment_from_decreases
{
    if i < 0 || i >= buf.len() {
        acc
    } else if buf[i].len() == 0 {
        segment_from(buf, i + 1, acc)
    } else {
        let e = run_end_from(buf, buf[i], i + 1);
        segment_from(buf, e + 1, merge_push(acc, i, e, rep_of(buf, i, e)))
    }
}

#[via_fn]
proof fn segment_from_decreases(buf: Seq<Seq<char>>, i: int, acc: Seq<(int, int, Seq<char>)>) {
    if 0 <= i < buf.len() && buf[i].len() != 0 {
        lemma_run_end_from_bounds(buf, buf[i], i + 1);
    }
}

/// The subtitle list the segmenter must produce for a completed buffer.
pub open spec fn segment_spec(buf: Seq<Seq<char>>) -> Seq<(int, int, Seq<char>)> {
    segment_from(buf, 0, Seq::empty())
}

/// Count how many frames of `buffer[lo..=hi]` carry exactly the text `t`.
pub fn count_occurrences(buffer: &Vec<String>, lo: usize, hi: usize, t: &String) -> (n: usize)
    requires
        lo <= hi < buffer@.len(),
    ensures
        n == freq(texts_view(buffer@), lo as int, hi as int, t@),
{
    let ghost bufv = texts_view(buffer@);
    let total = buffer.len();
    let mut n: usize = 0;
    let mut k: usize = lo;
    while k <= hi
        invariant
            lo <= k <= hi + 1,
            hi < total,
            total == buffer@.len(),
            bufv == texts_view(buffer@),
            n <= k - lo,
            n == freq(bufv, lo as int, k - 1int, t@),
        decreases hi + 1 - k,
    {
        if buffer[k] == *t {
            n = n + 1;
        }
        k += 1;
    }
    n
}

/// Choose the representative text of the run `buffer[lo..=hi]`: the variant
/// occurring most often; on equal counts the variant seen first wins.
pub fn representative(buffer: &Vec<String>, lo: usize, hi: usize) -> (rep: String)
    requires
        lo <= hi < buffer@.len(),
    ensures
        rep@ == rep_of(texts_view(buffer@), lo as int, hi as int),
{
    let ghost bufv = texts_view(buffer@);
    let total = buffer.len();
    let mut best: String = buffer[lo].clone();
    let mut best_count: usize = count_occurrences(buffer, lo, hi, &best);
    let mut k: usize = lo + 1;
    while k <= hi
        invariant
            lo < k <= hi + 1,
            hi < total,
            total == buffer@.len(),
            bufv == texts_view(buffer@),
            best_count == freq(bufv, lo as int, hi as int, best@),
            rep_from(bufv, lo as int, hi as int, k as int, best@) == rep_of(
                bufv,
                lo as int,
                hi as int,
            ),
        decreases hi + 1 - k,
    {
        let c: usize = count_occurrences(buffer, lo, hi, &buffer[k]);
        if c > best_count {
            best = buffer[k].clone();
            best_count = c;
        }
        k += 1;
    }
    best
}

/// Collapse a completed text buffer into the list of subtitle spans:
/// the spans, in frame order, that fuzzy run-length grouping with backward
/// merge extracts from the buffer. The output is well formed: spans are
/// ordered by start frame, disjoint, each within the buffer with
/// `start <= end` and a non-empty text, and no two adjacent spans carry
/// identical text.
pub fn segment(buffer: &Vec<String>) -> (subs: Vec<Subtitle>)
    ensures
        subs_view(subs@) == segment_spec(texts_view(buffer@)),
        spans_wf(subs_view(subs@), buffer@.len() as int),
{
    proof {
        lemma_segment_spec_wf(texts_view(buffer@));
    }
    let ghost bufv = texts_view(buffer@);
    let total = buffer.len();
    let mut subs: Vec<Subtitle> = Vec::new();
    let mut i: usize = 0;
    proof {
        assert(subs_view(subs@) =~= Seq::<(int, int, Seq<char>)>::empty());
    }
    while i < total
        invariant
            total == buffer@.len(),
            i <= total,
            bufv == texts_view(buffer@),
            segment_from(bufv, i as int, subs_view(subs@)) == segment_spec(bufv),
        decreases total - i,
    {
        if buffer[i].as_str().is_empty() {
            i += 1;
        } else {
            let mut j: usize = i + 1;
            while j < total && !buffer[j].as_str().is_empty() && is_similar(
                buffer[i].as_str(),
                buffer[j].as_str(),
            )
                invariant
                    total == buffer@.len(),
                    bufv == texts_view(buffer@),
                    i < j <= total,
                    run_end_from(bufv, bufv[i as int], i + 1int) == run_end_from(
                        bufv,
                        bufv[i as int],
                        j as int,
                    ),
                decreases total - j,
            {
                j += 1;
            }
            let e: usize = j - 1;
            proof {
                lemma_run_end_from_bounds(bufv, bufv[i as int], j as int);
                assert(run_end_from(bufv, bufv[i as int], j as int) == j - 1);
                assert(e as int == run_end_from(bufv, bufv[i as int], i + 1int));
            }
            let rep = representative(buffer, i, e);
            let ghost pre_subs = subs@;
            let ghost target = merge_push(
                subs_view(pre_subs),
                i as int,
                e as int,
                rep_of(bufv, i as int, e as int),
            );
            if subs.len() > 0 {
                if let Some(prev) = subs.pop() {
                    if prev.text == rep {
                        let combined = Subtitle {
                            start_frame: prev.start_frame,
                            end_frame: e,
                            text: rep,
                        };
                        subs.push(combined);
                        proof {
                            assert(subs_view(subs@) =~= target);
                        }
                    } else {
                        subs.push(prev);
                        proof {
                            assert(subs@ =~= pre_subs);
                        }
                        let fresh = Subtitle { start_frame: i, end_frame: e, text: rep };
                        subs.push(fresh);
                        proof {
                            assert(subs_view(subs@) =~= target);
                        }
                    }
                }
            } else {
                let fresh = Subtitle { start_frame: i, end_frame: e, text: rep };
                subs.push(fresh);
                proof {
                    assert(subs_view(subs@) =~= target);
                }
            }
            i = e + 1;
        }
    }
    subs
}

/// `spans` is a well-formed subtitle list for a buffer of `bound` frames:
/// every span lies within the buffer with `start <= end`, spans come in
/// strictly increasing frame order without overlap, every text is
/// non-empty, and no two adjacent spans carry identical text.
pub open spec fn spans_wf(spans: Seq<(int, int, Seq<char>)>, bound: int) -> bool {
    &&& forall|k: int| 0 <= k < spans.len() ==> 0 <= (#[trigger] spans[k]).0 <= spans[k].1 < bound
    &&& forall|k: int| 0 <= k < spans.len() - 1 ==> (#[trigger] spans[k]).1 < spans[k + 1].0
    &&& forall|k: int| 0 <= k < spans.len() - 1 ==> (#[trigger] spans[k]).2 != spans[k + 1].2
    &&& forall|k: int| 0 <= k < spans.len() ==> (#[trigger] spans[k]).2.len() != 0
}

proof fn lemma_rep_from_in_run(buf: Seq<Seq<char>>, lo: int, hi: int, k: int, best: Seq<char>)
    requires
        0 <= lo <= hi < buf.len(),
        lo <= k,
        exists|m: int| lo <= m <= hi && best == #[trigger] buf[m],
    ensures
        exists|m: int| lo <= m <= hi && rep_from(buf, lo, hi, k, best) == #[trigger] buf[m],
    decreases hi + 1 - k,
{
    if k <= hi {
        if freq(buf, lo, hi, buf[k]) > freq(buf, lo, hi, best) {
            lemma_rep_from_in_run(buf, lo, hi, k + 1, buf[k]);
        } else {
            lemma_rep_from_in_run(buf, lo, hi, k + 1, best);
        }
    }
}

/// The representative of a run is one of the texts displayed in the run.
pub proof fn lemma_rep_of_in_run(buf: Seq<Seq<char>>, lo: int, hi: int)
    ensures
        0 <= lo <= hi < buf.len() ==> exists|m: int|
            lo <= m <= hi && rep_of(buf, lo, hi) == #[trigger] buf[m],
{
    if 0 <= lo <= hi < buf.len() {
        assert(buf[lo] == buf[lo]);
        lemma_rep_from_in_run(buf, lo, hi, lo + 1, buf[lo]);
    }
}

proof fn lemma_rep_from_max(buf: Seq<Seq<char>>, lo: int, hi: int, k: int, best: Seq<char>)
    requires
        0 <= lo <= hi < buf.len(),
        lo <= k,
        forall|m: int|
            lo <= m < k ==> freq(buf, lo, hi, best) >= freq(buf, lo, hi, #[trigger] buf[m]),
    ensures
        forall|m: int|
            lo <= m <= hi ==> freq(buf, lo, hi, rep_from(buf, lo, hi, k, best)) >= freq(
                buf,
                lo,
                hi,
                #[trigger] buf[m],
            ),
    decreases hi + 1 - k,
{
    if k <= hi {
        if freq(buf, lo, hi, buf[k]) > freq(buf, lo, hi, best) {
            lemma_rep_from_max(buf, lo, hi, k + 1, buf[k]);
        } else {
            lemma_rep_from_max(buf, lo, hi, k + 1, best);
        }
    }
}

/// The representative of a run occurs in the run at least as often as every
/// text displayed in the run: it is a most frequent variant.
pub proof fn lemma_rep_of_max_freq(buf: Seq<Seq<char>>, lo: int, hi: int)
    requires
        0 <= lo <= hi < buf.len(),
    ensures
        forall|m: int|
            lo <= m <= hi ==> freq(buf, lo, hi, rep_of(buf, lo, hi)) >= freq(
                buf,
                lo,
                hi,
                #[trigger] buf[m],
            ),
{
    lemma_rep_from_max(buf, lo, hi, lo + 1, buf[lo]);
}

proof fn lemma_segment_from_wf(buf: Seq<Seq<char>>, i: int, acc: Seq<(int, int, Seq<char>)>)
    requires
        0 <= i,
        spans_wf(acc, buf.len() as int),
        acc.len() > 0 ==> acc.last().1 < i,
    ensures
        spans_wf(segment_from(buf, i, acc), buf.len() as int),
    decreases buf.len() - i,
{
    if 0 <= i < buf.len() {
        if buf[i].len() == 0 {
            lemma_segment_from_wf(buf, i + 1, acc);
        } else {
            let e = run_end_from(buf, buf[i], i + 1);
            let t = rep_of(buf, i, e);
            lemma_run_end_from_bounds(buf, buf[i], i + 1);
            lemma_run_end_from_members(buf, buf[i], i + 1);
            lemma_rep_of_in_run(buf, i, e);
            assert(t.len() != 0) by {
                let m = choose|m: int| i <= m <= e && rep_of(buf, i, e) == #[trigger] buf[m];
                if m > i {
                    assert(continues_run(buf[i], buf[m]));
                }
            }
            let acc2 = merge_push(acc, i, e, t);
            assert(spans_wf(acc2, buf.len() as int));
            lemma_segment_from_wf(buf, e + 1, acc2);
        }
    }
}

/// The segmenter's output is well formed: the spans are ordered by start
/// frame and disjoint, each lies within the buffer with `start <= end` and
/// a non-empty text, and no two adjacent spans carry identical text — two
/// consecutive runs with the same representative always appear merged as
/// one span.
pub proof fn lemma_segment_spec_wf(buf: Seq<Seq<char>>)
    ensures
        spans_wf(segment_spec(buf), buf.len() as int),
{
    lemma_segment_from_wf(buf, 0, Seq::empty());
}

proof fn lemma_segment_from_all_empty(buf: Seq<Seq<char>>, i: int, acc: Seq<(int, int, Seq<char>)>)
    requires
        0 <= i,
        forall|k: int| 0 <= k < buf.len() ==> #[trigger] buf[k].len() == 0,
    ensures
        segment_from(buf, i, acc) == acc,
    decreases buf.len() - i,
{
    if 0 <= i < buf.len() {
        lemma_segment_from_all_empty(buf, i + 1, acc);
    }
}

/// Empty-only input: a buffer in which no frame carries text yields an
/// empty subtitle list.
pub proof fn lemma_segment_spec_all_empty(buf: Seq<Seq<char>>)
    requires
        forall|k: int| 0 <= k < buf.len() ==> #[trigger] buf[k].len() == 0,
    ensures
        segment_spec(buf) == Seq::<(int, int, Seq<char>)>::empty(),
{
    lemma_segment_from_all_empty(buf, 0, Seq::empty());
}

} // verus!
