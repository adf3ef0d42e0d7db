use vstd::prelude::*;

use crate::models::{SegmentType, TextSegment};
use crate::text::{chars_of, is_open_quote, string_of};

verus! {

/// The closing bracket that pairs with an opening one.
pub open spec fn partner(c: char) -> char {
    if c == '「' {
        '」'
    } else if c == '『' {
        '』'
    } else {
        c
    }
}

/// The nesting depth of `open`/`close` brackets over `s[from..n]`: one up for each
/// `open`, one down for each `close`.
pub open spec fn balance(s: Seq<char>, from: int, open: char, close: char, n: int) -> int
    decreases n - from,
{
    if n <= from {
        0
    } else {
        balance(s, from, open, close, n - 1) + if s[n - 1] == open {
            1int
        } else if s[n - 1] == close {
            -1int
        } else {
            0int
        }
    }
}

/// The least `m` with `n <= m <= s.len()` at which the brackets opened from
/// `from` on are balanced again.
pub open spec fn first_balanced(s: Seq<char>, from: int, open: char, close: char, n: int) -> Option<
    int,
>
    decreases s.len() + 1 - n,
{
    if n > s.len() {
        None
    } else if balance(s, from, open, close, n) == 0 {
        Some(n)
    } else {
        first_balanced(s, from, open, close, n + 1)
    }
}

/// Where the quotation that opens at `k` ends (one past its closing bracket),
/// counting nested brackets of the same kind; `None` where no bracket opens at
/// `k` or it is never closed.
pub open spec fn quote_end(s: Seq<char>, k: int) -> Option<int> {
    if 0 <= k < s.len() && is_open_quote(s[k]) {
        first_balanced(s, k, s[k], partner(s[k]), k + 1)
    } else {
        None
    }
}

/// The first position at or after `i` that opens a quotation, or `s.len()`.
pub open spec fn next_open(s: Seq<char>, i: int) -> int
    decreases s.len() - i,
{
    if i >= s.len() {
        s.len() as int
    } else if is_open_quote(s[i]) {
        i
    } else {
        next_open(s, i + 1)
    }
}

/// A segment as a span and a kind.
pub type SegmentSpan = (int, int, SegmentType);

/// The span and kind of a segment.
pub open spec fn span_of(t: TextSegment) -> SegmentSpan {
    (t.start as int, t.end as int, t.segment_type)
}

/// The spans of a list of segments.
pub open spec fn spans_of(v: Seq<TextSegment>) -> Seq<SegmentSpan> {
    v.map_values(|t: TextSegment| span_of(t))
}

/// The segments of `s[pos..]`: narrative runs up to each opening bracket, and each
/// balanced quotation as one dialogue segment. An opening bracket that is never
/// closed is skipped and the search goes on after it.
pub open spec fn segments_from(s: Seq<char>, pos: int) -> Seq<SegmentSpan>
    decreases s.len() - pos,
    via segments_from_decreases
{
    if pos < 0 || pos >= s.len() {
        Seq::empty()
    } else {
        let k = next_open(s, pos);
        if k >= s.len() {
            seq![(pos, s.len() as int, SegmentType::Narrative)]
        } else {
            let before = if k > pos {
                seq![(pos, k, SegmentType::Narrative)]
            } else {
                Seq::empty()
            };
            match quote_end(s, k) {
                Some(e) => before + seq![(k, e, SegmentType::Dialogue)] + segments_from(s, e),
                None => before + segments_from(s, k + 1),
            }
        }
    }
}

/// The segments of a whole text.
pub open spec fn segments_of(s: Seq<char>) -> Seq<SegmentSpan> {
    segments_from(s, 0)
}

pub proof fn lemma_next_open_facts(s: Seq<char>, i: int)
    requires
        0 <= i <= s.len(),
    ensures
        i <= next_open(s, i) <= s.len(),
        next_open(s, i) < s.len() ==> is_open_quote(s[next_open(s, i)]),
        forall|j: int| i <= j < next_open(s, i) ==> !is_open_quote(#[trigger] s[j]),
    decreases s.len() - i,
{
    if i < s.len() && !is_open_quote(s[i]) {
        lemma_next_open_facts(s, i + 1);
    }
}

proof fn lemma_first_balanced_bounds(s: Seq<char>, from: int, open: char, close: char, n: int)
    ensures
        first_balanced(s, from, open, close, n) matches Some(m) ==> n <= m <= s.len(),
    decreases s.len() + 1 - n,
{
    if n <= s.len() && balance(s, from, open, close, n) != 0 {
        lemma_first_balanced_bounds(s, from, open, close, n + 1);
    }
}

pub proof fn lemma_quote_end_facts(s: Seq<char>, k: int)
    ensures
        quote_end(s, k) matches Some(e) ==> k < e <= s.len(),
{
    if 0 <= k < s.len() && is_open_quote(s[k]) {
        lemma_first_balanced_bounds(s, k, s[k], partner(s[k]), k + 1);
    }
}

#[via_fn]
proof fn segments_from_decreases(s: Seq<char>, pos: int) {
    if 0 <= pos < s.len() {
        lemma_next_open_facts(s, pos);
        lemma_quote_end_facts(s, next_open(s, pos));
    }
}

/// The offset from `pos` of the first opening bracket at or after `pos`.
fn find_dialogue_start(chars: &Vec<char>, pos: usize) -> (r: Option<usize>)
    requires
        pos <= chars@.len(),
    ensures
        next_open(chars@, pos as int) < chars@.len() ==> r == Some(
            (next_open(chars@, pos as int) - pos) as usize,
        ),
        next_open(chars@, pos as int) >= chars@.len() ==> r is None,
{
    let ghost s = chars@;
    let mut i: usize = pos;
    while i < chars.len()
        invariant
            s == chars@,
            pos <= i <= s.len(),
            next_open(s, pos as int) == next_open(s, i as int),
        decreases s.len() - i,
    {
        if chars[i] == '「' || chars[i] == '『' {
            return Some(i - pos);
        }
        i = i + 1;
    }
    None
}

/// The length of the quotation that opens at `pos`, up to and including the
/// bracket that closes it, counting nested brackets of the same kind.
fn find_dialogue_end(chars: &Vec<char>, pos: usize) -> (r: Option<usize>)
    requires
        pos <= chars@.len(),
    ensures
        quote_end(chars@, pos as int) matches Some(e) ==> r == Some((e - pos) as usize),
        quote_end(chars@, pos as int) is None ==> r is None,
{
    let ghost s = chars@;
    if pos >= chars.len() {
        return None;
    }
    let open = chars[pos];
    let close = if open == '「' {
        '」'
    } else if open == '『' {
        '』'
    } else {
        return None;
    };
    let mut depth: usize = 1;
    let mut i: usize = pos + 1;
    assert(balance(s, pos as int, open, close, pos as int) == 0);
    assert(balance(s, pos as int, open, close, pos as int + 1) == 1);
    assert(quote_end(s, pos as int) == first_balanced(s, pos as int, open, close, pos as int + 2));
    while i < chars.len()
        invariant
            s == chars@,
            pos < i <= s.len(),
            open == s[pos as int],
            is_open_quote(open),
            close == partner(open),
            depth >= 1,
            depth <= i - pos,
            depth == balance(s, pos as int, open, close, i as int),
            quote_end(s, pos as int) == first_balanced(s, pos as int, open, close, i as int + 1),
        decreases s.len() - i,
    {
        let ch = chars[i];
        if ch == open {
            depth = depth + 1;
        } else if ch == close {
            depth = depth - 1;
            if depth == 0 {
                return Some(i + 1 - pos);
            }
        }
        i = i + 1;
    }
    None
}

/// Splits a text into narrative and dialogue segments. Each segment holds its
/// span of the text; segments come in order and do not overlap.
pub fn parse_dialogue_chars(chars: &Vec<char>) -> (r: Vec<TextSegment>)
    ensures
        spans_of(r@) == segments_of(chars@),
        forall|i: int|
            0 <= i < r@.len() ==> {
                &&& r@[i].start <= r@[i].end <= chars@.len()
                &&& (#[trigger] r@[i]).content@ == chars@.subrange(
                    r@[i].start as int,
                    r@[i].end as int,
                )
            },
{
    let ghost s = chars@;
    let n = chars.len();
    let mut segments: Vec<TextSegment> = Vec::new();
    let mut pos: usize = 0;
    while pos < n
        invariant_except_break
            s == chars@,
            n == s.len(),
            pos <= n,
            spans_of(segments@) + segments_from(s, pos as int) == segments_of(s),
            forall|i: int|
                0 <= i < segments@.len() ==> {
                    &&& segments@[i].start <= segments@[i].end <= n
                    &&& (#[trigger] segments@[i]).content@ == s.subrange(
                        segments@[i].start as int,
                        segments@[i].end as int,
                    )
                },
        ensures
            spans_of(segments@) == segments_of(s),
            forall|i: int|
                0 <= i < segments@.len() ==> {
                    &&& segments@[i].start <= segments@[i].end <= n
                    &&& (#[trigger] segments@[i]).content@ == s.subrange(
                        segments@[i].start as int,
                        segments@[i].end as int,
                    )
                },
        decreases n - pos,
    {
        proof {
            lemma_next_open_facts(s, pos as int);
        }
        match find_dialogue_start(chars, pos) {
            Some(offset) => {
                let k = pos + offset;
                proof {
                    lemma_quote_end_facts(s, k as int);
                }
                let ghost before: Seq<SegmentSpan> = if k > pos {
                    seq![(pos as int, k as int, SegmentType::Narrative)]
                } else {
                    Seq::empty()
                };
                let ghost old_segments = segments@;
                if offset > 0 {
                    let content = string_of(chars, pos, k);
                    segments.push(
                        TextSegment {
                            start: pos,
                            end: k,
                            content,
                            segment_type: SegmentType::Narrative,
                        },
                    );
                }
                assert(spans_of(segments@) == spans_of(old_segments) + before) by {
                    assert(spans_of(segments@) =~= spans_of(old_segments) + before);
                }
                let ghost mid_segments = segments@;
                match find_dialogue_end(chars, k) {
                    Some(len) => {
                        let e = k + len;
                        let content = string_of(chars, k, e);
                        segments.push(
                            TextSegment {
                                start: k,
                                end: e,
                                content,
                                segment_type: SegmentType::Dialogue,
                            },
                        );
                        assert(spans_of(segments@) =~= spans_of(mid_segments) + seq![
                            (k as int, e as int, SegmentType::Dialogue),
                        ]);
                        assert(spans_of(old_segments) + segments_from(s, pos as int)
                            =~= spans_of(segments@) + segments_from(s, e as int));
                        pos = e;
                    },
                    None => {
                        assert(spans_of(old_segments) + segments_from(s, pos as int)
                            =~= spans_of(segments@) + segments_from(s, k + 1));
                        pos = k + 1;
                    },
                }
            },
            None => {
                let ghost old_segments = segments@;
                let content = string_of(chars, pos, n);
                segments.push(
                    TextSegment { start: pos, end: n, content, segment_type: SegmentType::Narrative },
                );
                assert(spans_of(segments@) =~= spans_of(old_segments) + segments_from(s, pos as int));
                break;
            },
        }
    }
    proof {
        if pos >= n {
            assert(segments_from(s, pos as int) =~= Seq::<SegmentSpan>::empty());
            assert(spans_of(segments@) + segments_from(s, pos as int) =~= spans_of(segments@));
        }
    }
    segments
}

/// Splits a text into narrative and dialogue segments; see `parse_dialogue_chars`.
pub fn parse_dialogues(text: &str) -> (r: Vec<TextSegment>)
    ensures
        spans_of(r@) == segments_of(text@),
        forall|i: int|
            0 <= i < r@.len() ==> {
                &&& r@[i].start <= r@[i].end <= text@.len()
                &&& (#[trigger] r@[i]).content@ == text@.subrange(
                    r@[i].start as int,
                    r@[i].end as int,
                )
            },
{
    let chars = chars_of(text);
    parse_dialogue_chars(&chars)
}

/// The spans come in order, do not overlap, are not empty and lie in `[lo, hi]`.
pub open spec fn spans_in_order(segs: Seq<SegmentSpan>, lo: int, hi: int) -> bool {
    &&& forall|i: int| 0 <= i < segs.len() ==> lo <= (#[trigger] segs[i]).0 < segs[i].1 <= hi
    &&& forall|i: int, j: int| 0 <= i < j < segs.len() ==> (#[trigger] segs[i]).1 <= (#[trigger] segs[j]).0
}

proof fn lemma_in_order_append(a: Seq<SegmentSpan>, b: Seq<SegmentSpan>, lo: int, mid: int, hi: int)
    requires
        lo <= mid <= hi,
        spans_in_order(a, lo, mid),
        spans_in_order(b, mid, hi),
    ensures
        spans_in_order(a + b, lo, hi),
{
    let c = a + b;
    assert forall|i: int| 0 <= i < c.len() implies lo <= (#[trigger] c[i]).0 < c[i].1 <= hi by {
        if i < a.len() {
            assert(c[i] == a[i]);
        } else {
            assert(c[i] == b[i - a.len()]);
        }
    }
    assert forall|i: int, j: int| 0 <= i < j < c.len() implies (#[trigger] c[i]).1 <= (
    #[trigger] c[j]).0 by {
        if j < a.len() {
            assert(c[i] == a[i] && c[j] == a[j]);
        } else if i >= a.len() {
            assert(c[i] == b[i - a.len()] && c[j] == b[j - a.len()]);
        } else {
            assert(c[i] == a[i] && c[j] == b[j - a.len()]);
        }
    }
}

proof fn lemma_segments_in_order(s: Seq<char>, pos: int)
    requires
        0 <= pos <= s.len(),
    ensures
        spans_in_order(segments_from(s, pos), pos, s.len() as int),
    decreases s.len() - pos,
{
    let n = s.len() as int;
    if pos < n {
        let k = next_open(s, pos);
        lemma_next_open_facts(s, pos);
        if k >= n {
            let one = seq![(pos, n, SegmentType::Narrative)];
            assert(spans_in_order(one, pos, n));
        } else {
            let before: Seq<SegmentSpan> = if k > pos {
                seq![(pos, k, SegmentType::Narrative)]
            } else {
                Seq::empty()
            };
            assert(spans_in_order(before, pos, k));
            lemma_quote_end_facts(s, k);
            match quote_end(s, k) {
                Some(e) => {
                    let mid = seq![(k, e, SegmentType::Dialogue)];
                    assert(spans_in_order(mid, k, e));
                    lemma_segments_in_order(s, e);
                    lemma_in_order_append(before, mid, pos, k, e);
                    lemma_in_order_append(before + mid, segments_from(s, e), pos, e, n);
                    assert(segments_from(s, pos) == before + mid + segments_from(s, e));
                },
                None => {
                    lemma_segments_in_order(s, k + 1);
                    lemma_in_order_append(before, segments_from(s, k + 1), pos, k + 1, n);
                    assert(segments_from(s, pos) == before + segments_from(s, k + 1));
                },
            }
        }
    }
}

/// The segments of a text lie inside it, in order, without overlap, and none is
/// empty.
pub proof fn law_segments_in_order(s: Seq<char>)
    ensures
        spans_in_order(segments_of(s), 0, s.len() as int),
{
    lemma_segments_in_order(s, 0);
}

/// Whether position `p` lies inside one of the spans.
pub open spec fn covered(segs: Seq<SegmentSpan>, p: int) -> bool {
    exists|i: int| 0 <= i < segs.len() && (#[trigger] segs[i]).0 <= p < segs[i].1
}

proof fn lemma_covered_shift(a: Seq<SegmentSpan>, b: Seq<SegmentSpan>, p: int)
    ensures
        covered(a, p) ==> covered(a + b, p),
        covered(b, p) ==> covered(a + b, p),
{
    if covered(a, p) {
        let i = choose|i: int| 0 <= i < a.len() && (#[trigger] a[i]).0 <= p < a[i].1;
        assert((a + b)[i] == a[i]);
    }
    if covered(b, p) {
        let i = choose|i: int| 0 <= i < b.len() && (#[trigger] b[i]).0 <= p < b[i].1;
        assert((a + b)[a.len() + i] == b[i]);
    }
}

proof fn lemma_segments_cover(s: Seq<char>, pos: int, p: int)
    requires
        0 <= pos <= p < s.len(),
    ensures
        covered(segments_from(s, pos), p) || (is_open_quote(s[p]) && quote_end(s, p) is None),
    decreases s.len() - pos,
{
    let n = s.len() as int;
    let k = next_open(s, pos);
    lemma_next_open_facts(s, pos);
    if k >= n {
        let one = seq![(pos, n, SegmentType::Narrative)];
        assert(one[0].0 <= p < one[0].1);
    } else {
        let before: Seq<SegmentSpan> = if k > pos {
            seq![(pos, k, SegmentType::Narrative)]
        } else {
            Seq::empty()
        };
        lemma_quote_end_facts(s, k);
        if p < k {
            assert(before[0].0 <= p < before[0].1);
        }
        match quote_end(s, k) {
            Some(e) => {
                let mid = seq![(k, e, SegmentType::Dialogue)];
                let rest = segments_from(s, e);
                assert(segments_from(s, pos) == before + mid + rest);
                if p < k {
                    lemma_covered_shift(before, mid, p);
                    lemma_covered_shift(before + mid, rest, p);
                } else if p < e {
                    assert(mid[0].0 <= p < mid[0].1);
                    lemma_covered_shift(before, mid, p);
                    lemma_covered_shift(before + mid, rest, p);
                } else {
                    lemma_segments_cover(s, e, p);
                    lemma_covered_shift(before + mid, rest, p);
                }
            },
            None => {
                let rest = segments_from(s, k + 1);
                assert(segments_from(s, pos) == before + rest);
                if p < k {
                    lemma_covered_shift(before, rest, p);
                } else if p > k {
                    lemma_segments_cover(s, k + 1, p);
                    lemma_covered_shift(before, rest, p);
                }
            },
        }
    }
}

/// The segments leave out of a text only opening brackets that are never closed:
/// every other position lies inside a segment.
pub proof fn law_segments_cover_text(s: Seq<char>, p: int)
    requires
        0 <= p < s.len(),
    ensures
        covered(segments_of(s), p) || (is_open_quote(s[p]) && quote_end(s, p) is None),
{
    lemma_segments_cover(s, 0, p);
}

/// Why a quotation could not be read at the start of a text.
#[derive(Clone, Copy, Debug, PartialEq, Eq, Structural)]
pub enum QuoteError {
    /// The text does not start with the expected opening bracket.
    NoOpening,
    /// The closing bracket is missing, or a bracket of the other kind closes first.
    Unclosed,
}

/// The first position at or after `from` that holds `c`, or `s.len()`.
pub open spec fn index_of_from(s: Seq<char>, c: char, from: int) -> int
    decreases s.len() - from,
{
    if from >= s.len() {
        s.len() as int
    } else if s[from] == c {
        from
    } else {
        index_of_from(s, c, from + 1)
    }
}

proof fn lemma_index_of_from(s: Seq<char>, c: char, from: int)
    requires
        0 <= from <= s.len(),
    ensures
        from <= index_of_from(s, c, from) <= s.len(),
        index_of_from(s, c, from) < s.len() ==> s[index_of_from(s, c, from)] == c,
        forall|j: int| from <= j < index_of_from(s, c, from) ==> #[trigger] s[j] != c,
    decreases s.len() - from,
{
    if from < s.len() && s[from] != c {
        lemma_index_of_from(s, c, from + 1);
    }
}

/// The position of the first character after `from` that is `c`, or `s.len()`.
fn find_char(chars: &Vec<char>, c: char, from: usize) -> (r: usize)
    requires
        from <= chars@.len(),
    ensures
        r == index_of_from(chars@, c, from as int),
{
    let ghost s = chars@;
    let mut i: usize = from;
    while i < chars.len()
        invariant
            s == chars@,
            from <= i <= s.len(),
            index_of_from(s, c, from as int) == index_of_from(s, c, i as int),
        decreases s.len() - i,
    {
        if chars[i] == c {
            return i;
        }
        i = i + 1;
    }
    i
}

/// The end of the flat quotation at the start of `s`: the position of the first
/// bracket that closes the opening one, if there is one.
pub open spec fn flat_quote_close(s: Seq<char>) -> Option<int> {
    if s.len() > 0 && is_open_quote(s[0]) && index_of_from(s, partner(s[0]), 1) < s.len() {
        Some(index_of_from(s, partner(s[0]), 1))
    } else {
        None
    }
}

/// Reads a quotation without nesting at the start of `input`: an opening bracket,
/// everything up to the first bracket that closes it, and that bracket. Gives the
/// rest of the input and the quoted text between the brackets.
pub fn dialogue_nom(input: &str) -> (r: Result<(&str, &str), QuoteError>)
    ensures
        flat_quote_close(input@) matches Some(j) ==> r matches Ok((rest, inner)) && rest@
            == input@.subrange(j + 1, input@.len() as int) && inner@ == input@.subrange(1, j),
        !(input@.len() > 0 && is_open_quote(input@[0])) ==> r == Err::<(&str, &str), QuoteError>(
            QuoteError::NoOpening,
        ),
        input@.len() > 0 && is_open_quote(input@[0]) && flat_quote_close(input@) is None ==> r
            == Err::<(&str, &str), QuoteError>(QuoteError::Unclosed),
{
    let chars = chars_of(input);
    let n = chars.len();
    if n == 0 || (chars[0] != '「' && chars[0] != '『') {
        return Err(QuoteError::NoOpening);
    }
    let close = if chars[0] == '「' {
        '」'
    } else {
        '』'
    };
    let j = find_char(&chars, close, 1);
    proof {
        lemma_index_of_from(chars@, close, 1);
    }
    if j >= n {
        return Err(QuoteError::Unclosed);
    }
    let inner = input.substring_char(1, j);
    let rest = input.substring_char(j + 1, n);
    Ok((rest, inner))
}

/// Scans the body of a `「` quotation from `j`: a `『…』` pair is taken whole,
/// whatever it holds, and the first `」` outside such a pair ends the quotation.
/// `None` where the text ends first, a `『` is never closed, or a `』` stands alone.
pub open spec fn nested_scan(s: Seq<char>, j: int) -> Option<int>
    decreases s.len() - j,
    via nested_scan_decreases
{
    if j < 0 || j >= s.len() {
        None
    } else if s[j] == '」' {
        Some(j)
    } else if s[j] == '』' {
        None
    } else if s[j] == '『' {
        let m = index_of_from(s, '』', j + 1);
        if m >= s.len() {
            None
        } else {
            nested_scan(s, m + 1)
        }
    } else {
        nested_scan(s, j + 1)
    }
}

#[via_fn]
proof fn nested_scan_decreases(s: Seq<char>, j: int) {
    if 0 <= j < s.len() {
        lemma_index_of_from(s, '』', j + 1);
    }
}

/// The position of the `」` that closes the quotation at the start of `s`.
pub open spec fn nested_quote_close(s: Seq<char>) -> Option<int> {
    if s.len() > 0 && s[0] == '「' {
        nested_scan(s, 1)
    } else {
        None
    }
}

/// Reads a `「…」` quotation at the start of `input` in which `『…』` pairs may
/// nest. Gives the rest of the input and the whole quotation, brackets included.
pub fn dialogue_nested_nom(input: &str) -> (r: Result<(&str, String), QuoteError>)
    ensures
        nested_quote_close(input@) matches Some(j) ==> r matches Ok((rest, quote)) && rest@
            == input@.subrange(j + 1, input@.len() as int) && quote@ == input@.subrange(0, j + 1),
        !(input@.len() > 0 && input@[0] == '「') ==> r == Err::<(&str, String), QuoteError>(
            QuoteError::NoOpening,
        ),
        input@.len() > 0 && input@[0] == '「' && nested_quote_close(input@) is None ==> r == Err::<
            (&str, String),
            QuoteError,
        >(QuoteError::Unclosed),
{
    let chars = chars_of(input);
    let ghost s = chars@;
    let n = chars.len();
    if n == 0 || chars[0] != '「' {
        return Err(QuoteError::NoOpening);
    }
    let mut j: usize = 1;
    while j < n && chars[j] != '」'
        invariant
            s == chars@,
            s == input@,
            n == s.len(),
            s[0] == '「',
            1 <= j <= n,
            nested_quote_close(s) == nested_scan(s, j as int),
        decreases n - j,
    {
        if chars[j] == '』' {
            assert(nested_scan(s, j as int) is None);
            return Err(QuoteError::Unclosed);
        }
        if chars[j] == '『' {
            let m = find_char(&chars, '』', j + 1);
            proof {
                lemma_index_of_from(s, '』', j + 1);
            }
            if m >= n {
                assert(nested_scan(s, j as int) is None);
                return Err(QuoteError::Unclosed);
            }
            j = m + 1;
        } else {
            j = j + 1;
        }
    }
    if j >= n {
        return Err(QuoteError::Unclosed);
    }
    let quote = string_of(&chars, 0, j + 1);
    let rest = input.substring_char(j + 1, n);
    Ok((rest, quote))
}

} // verus!
