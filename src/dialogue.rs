use vstd::prelude::*;

use crate::brackets::{
    lemma_next_open_facts, lemma_quote_end_facts, next_open, parse_dialogue_chars, quote_end,
    segments_from, segments_of, span_of, spans_of, SegmentSpan,
};
use crate::models::{DialogueStats, Ratio, SegmentType, TextSegment};
use crate::text::chars_of;

verus! {

/// The number of characters in the dialogue segments of `segs`.
pub open spec fn dialogue_length(segs: Seq<SegmentSpan>) -> int
    decreases segs.len(),
{
    if segs.len() == 0 {
        0
    } else {
        dialogue_length(segs.drop_last()) + if segs.last().2 == SegmentType::Dialogue {
            segs.last().1 - segs.last().0
        } else {
            0
        }
    }
}

/// The number of dialogue segments in `segs`.
pub open spec fn dialogue_segment_count(segs: Seq<SegmentSpan>) -> nat
    decreases segs.len(),
{
    if segs.len() == 0 {
        0
    } else {
        dialogue_segment_count(segs.drop_last()) + if segs.last().2 == SegmentType::Dialogue {
            1nat
        } else {
            0nat
        }
    }
}

/// The dialogue statistics of a text: characters inside quotations, the rest,
/// their ratio to the whole (zero for an empty text) and the number of quotations.
pub open spec fn dialogue_stats_of(s: Seq<char>) -> DialogueStats {
    let d = dialogue_length(segments_of(s));
    DialogueStats {
        dialogue_chars: d as usize,
        narrative_chars: (s.len() - d) as usize,
        dialogue_ratio: if s.len() > 0 {
            Ratio { num: d as u128, den: s.len() as u128 }
        } else {
            Ratio { num: 0, den: 1 }
        },
        dialogue_count: dialogue_segment_count(segments_of(s)) as usize,
    }
}

/// Each span starts no later than it ends.
pub open spec fn spans_forward(segs: Seq<SegmentSpan>) -> bool {
    forall|i: int| 0 <= i < segs.len() ==> (#[trigger] segs[i]).0 <= segs[i].1
}

proof fn lemma_sums_append(a: Seq<SegmentSpan>, b: Seq<SegmentSpan>)
    ensures
        dialogue_length(a + b) == dialogue_length(a) + dialogue_length(b),
        dialogue_segment_count(a + b) == dialogue_segment_count(a) + dialogue_segment_count(b),
    decreases b.len(),
{
    if b.len() == 0 {
        assert(a + b =~= a);
    } else {
        lemma_sums_append(a, b.drop_last());
        assert((a + b).drop_last() =~= a + b.drop_last());
    }
}

proof fn lemma_sums_nonneg(segs: Seq<SegmentSpan>)
    requires
        spans_forward(segs),
    ensures
        dialogue_length(segs) >= 0,
    decreases segs.len(),
{
    if segs.len() > 0 {
        let t = segs.drop_last();
        assert(spans_forward(t)) by {
            assert forall|i: int| 0 <= i < t.len() implies (#[trigger] t[i]).0 <= t[i].1 by {
                assert(t[i] == segs[i]);
            }
        }
        lemma_sums_nonneg(t);
        assert(segs.last() == segs[segs.len() - 1]);
    }
}

proof fn lemma_single(x: SegmentSpan)
    ensures
        dialogue_length(seq![x]) == if x.2 == SegmentType::Dialogue {
            x.1 - x.0
        } else {
            0
        },
        dialogue_segment_count(seq![x]) == if x.2 == SegmentType::Dialogue {
            1nat
        } else {
            0nat
        },
{
    assert(seq![x].drop_last() =~= Seq::<SegmentSpan>::empty());
    assert(seq![x].last() == x);
    assert(dialogue_length(Seq::<SegmentSpan>::empty()) == 0);
    assert(dialogue_segment_count(Seq::<SegmentSpan>::empty()) == 0);
}

/// The segments of `s[pos..]` lie inside it, in order; a dialogue segment holds at
/// least its opening bracket.
proof fn lemma_segments_within(s: Seq<char>, pos: int)
    requires
        0 <= pos <= s.len(),
    ensures
        spans_forward(segments_from(s, pos)),
        forall|i: int|
            0 <= i < segments_from(s, pos).len() ==> pos <= (#[trigger] segments_from(s, pos)[i]).0
                && segments_from(s, pos)[i].1 <= s.len(),
        dialogue_length(segments_from(s, pos)) <= s.len() - pos,
    decreases s.len() - pos,
{
    let segs = segments_from(s, pos);
    if pos < s.len() {
        let k = next_open(s, pos);
        lemma_next_open_facts(s, pos);
        if k >= s.len() {
            lemma_single((pos, s.len() as int, SegmentType::Narrative));
        } else {
            let before: Seq<SegmentSpan> = if k > pos {
                seq![(pos, k, SegmentType::Narrative)]
            } else {
                Seq::empty()
            };
            if k > pos {
                lemma_single((pos, k, SegmentType::Narrative));
            }
            lemma_quote_end_facts(s, k);
            match quote_end(s, k) {
                Some(e) => {
                    let mid = seq![(k, e, SegmentType::Dialogue)];
                    let rest = segments_from(s, e);
                    lemma_segments_within(s, e);
                    lemma_single((k, e, SegmentType::Dialogue));
                    lemma_sums_append(before, mid);
                    lemma_sums_append(before + mid, rest);
                    assert(segs == before + mid + rest);
                },
                None => {
                    let rest = segments_from(s, k + 1);
                    lemma_segments_within(s, k + 1);
                    lemma_sums_append(before, rest);
                    assert(segs == before + rest);
                },
            }
        }
    }
}

/// Quoted and unquoted characters together make up the whole text, and the
/// dialogue ratio lies between zero and one.
pub proof fn law_dialogue_narrative_split(s: Seq<char>)
    requires
        s.len() <= usize::MAX,
    ensures
        dialogue_stats_of(s).dialogue_chars + dialogue_stats_of(s).narrative_chars == s.len(),
        dialogue_stats_of(s).dialogue_ratio.wf(),
        dialogue_stats_of(s).dialogue_ratio.at_most_one(),
{
    lemma_segments_within(s, 0);
    lemma_sums_nonneg(segments_of(s));
}

/// Computes the dialogue statistics of a text.
pub struct DialogueAnalyzer;

impl DialogueAnalyzer {
    /// Counts the characters inside quotations (brackets included), the others,
    /// the share of the former and the number of quotations.
    pub fn analyze(text: &str) -> (r: DialogueStats)
        ensures
            r == dialogue_stats_of(text@),
            r.dialogue_chars + r.narrative_chars == text@.len(),
            r.dialogue_ratio.at_most_one(),
    {
        let chars = chars_of(text);
        dialogue_stats_of_chars(&chars)
    }
}

/// The dialogue statistics of the characters of a text.
pub fn dialogue_stats_of_chars(chars: &Vec<char>) -> (r: DialogueStats)
    ensures
        r == dialogue_stats_of(chars@),
        r.dialogue_chars + r.narrative_chars == chars@.len(),
        r.dialogue_ratio.at_most_one(),
{
    let ghost s = chars@;
    let segments = parse_dialogue_chars(chars);
    let ghost spans = spans_of(segments@);
    proof {
        lemma_segments_within(s, 0);
        lemma_sums_nonneg(spans);
    }
    assert(s.len() == chars.len());
    let mut dialogue_chars: usize = 0;
    let mut dialogue_count: usize = 0;
    let mut i: usize = 0;
    while i < segments.len()
        invariant
            s == chars@,
            spans == spans_of(segments@),
            spans == segments_of(s),
            spans_forward(spans),
            dialogue_length(spans) <= s.len(),
            s.len() <= usize::MAX,
            i <= spans.len(),
            dialogue_chars == dialogue_length(spans.take(i as int)),
            dialogue_count == dialogue_segment_count(spans.take(i as int)),
            dialogue_count <= i,
        decreases spans.len() - i,
    {
        let ghost head = spans.take(i as int + 1);
        proof {
            assert(head.drop_last() =~= spans.take(i as int));
            let tail = spans.subrange(i as int + 1, spans.len() as int);
            assert(spans =~= head + tail);
            lemma_sums_append(head, tail);
            assert(spans_forward(tail)) by {
                assert forall|j: int| 0 <= j < tail.len() implies (#[trigger] tail[j]).0
                    <= tail[j].1 by {
                    assert(tail[j] == spans[i + 1 + j]);
                }
            }
            lemma_sums_nonneg(tail);
            assert(head.last() == spans[i as int]);
            assert(spans[i as int] == span_of(segments@[i as int]));
        }
        let seg: &TextSegment = &segments[i];
        if seg.segment_type == SegmentType::Dialogue {
            dialogue_chars = dialogue_chars + (seg.end - seg.start);
            dialogue_count = dialogue_count + 1;
        }
        i = i + 1;
    }
    assert(spans.take(i as int) =~= spans);
    let total_chars = chars.len();
    let narrative_chars = total_chars - dialogue_chars;
    let dialogue_ratio = Ratio::of(dialogue_chars as u128, total_chars as u128);
    DialogueStats { dialogue_chars, narrative_chars, dialogue_ratio, dialogue_count }
}

} // verus!
