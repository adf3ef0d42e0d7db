use vstd::prelude::*;

use crate::text::{
    all_blank, chars_of, is_blank, is_close_quote, is_open_quote, is_sentence_end,
    is_sentence_end_char, string_of, trim_bounds, trim_end_seq, trim_seq, trim_start_seq,
};

verus! {

/// Whether the scan is inside a quotation after reading `c`: an opening bracket
/// sets it, a closing bracket clears it. Nesting is not tracked.
pub open spec fn quote_flag(inside: bool, c: char) -> bool {
    if is_open_quote(c) {
        true
    } else if is_close_quote(c) {
        false
    } else {
        inside
    }
}

/// The raw sentence pieces of `s[start..]`, scanning on from position `i` with the
/// quotation flag `inside`: a piece ends after each sentence-ending mark read
/// outside a quotation, and the rest of the text is the last piece.
pub open spec fn chunks_from(s: Seq<char>, i: int, start: int, inside: bool) -> Seq<Seq<char>>
    decreases s.len() - i,
{
    if 0 <= i < s.len() {
        let f = quote_flag(inside, s[i]);
        if !f && is_sentence_end(s[i]) {
            seq![s.subrange(start, i + 1)] + chunks_from(s, i + 1, i + 1, f)
        } else {
            chunks_from(s, i + 1, start, f)
        }
    } else {
        seq![s.subrange(start, s.len() as int)]
    }
}

/// The raw sentence pieces of a text; together they are the text.
pub open spec fn sentence_chunks(s: Seq<char>) -> Seq<Seq<char>> {
    chunks_from(s, 0, 0, false)
}

/// The pieces trimmed of blanks at both ends, leaving out those that are then empty.
pub open spec fn trimmed_filled(pieces: Seq<Seq<char>>) -> Seq<Seq<char>>
    decreases pieces.len(),
{
    if pieces.len() == 0 {
        Seq::empty()
    } else {
        let t = trim_seq(pieces.last());
        trimmed_filled(pieces.drop_last()) + if t.len() > 0 {
            seq![t]
        } else {
            Seq::empty()
        }
    }
}

/// The sentences of a text: its trimmed non-empty pieces; where there are none and
/// the trimmed text is not empty, the trimmed text alone.
pub open spec fn sentences_of(s: Seq<char>) -> Seq<Seq<char>> {
    let k = trimmed_filled(sentence_chunks(s));
    if k.len() == 0 && trim_seq(s).len() > 0 {
        seq![trim_seq(s)]
    } else {
        k
    }
}

/// The views of a list of strings.
pub open spec fn string_views(v: Seq<String>) -> Seq<Seq<char>> {
    v.map_values(|t: String| t@)
}

proof fn lemma_trimmed_filled_push(pieces: Seq<Seq<char>>, p: Seq<char>)
    ensures
        trimmed_filled(pieces.push(p)) == trimmed_filled(pieces) + if trim_seq(p).len() > 0 {
            seq![trim_seq(p)]
        } else {
            Seq::<Seq<char>>::empty()
        },
{
    assert(pieces.push(p).drop_last() =~= pieces);
}

proof fn lemma_chunks_flatten(s: Seq<char>, i: int, start: int, inside: bool)
    requires
        0 <= start <= i <= s.len(),
    ensures
        chunks_from(s, i, start, inside).flatten() == s.subrange(start, s.len() as int),
    decreases s.len() - i,
{
    if i < s.len() {
        let f = quote_flag(inside, s[i]);
        if !f && is_sentence_end(s[i]) {
            let rest = chunks_from(s, i + 1, i + 1, f);
            lemma_chunks_flatten(s, i + 1, i + 1, f);
            let all = seq![s.subrange(start, i + 1)] + rest;
            assert(all.drop_first() =~= rest);
            assert(all.first() == s.subrange(start, i + 1));
            assert(s.subrange(start, i + 1) + s.subrange(i + 1, s.len() as int) =~= s.subrange(
                start,
                s.len() as int,
            ));
        } else {
            lemma_chunks_flatten(s, i + 1, start, f);
        }
    } else {
        let all = seq![s.subrange(start, s.len() as int)];
        assert(all.drop_first() =~= Seq::<Seq<char>>::empty());
        assert(all.flatten() == all.first() + all.drop_first().flatten());
        assert(all.flatten() =~= s.subrange(start, s.len() as int));
    }
}

proof fn lemma_chunks_end_marks(s: Seq<char>, i: int, start: int, inside: bool)
    requires
        0 <= start <= i <= s.len(),
    ensures
        chunks_from(s, i, start, inside).len() >= 1,
        forall|j: int|
            0 <= j < chunks_from(s, i, start, inside).len() - 1 ==> {
                let c = #[trigger] chunks_from(s, i, start, inside)[j];
                c.len() > 0 && is_sentence_end(c.last())
            },
    decreases s.len() - i,
{
    let all = chunks_from(s, i, start, inside);
    if i < s.len() {
        let f = quote_flag(inside, s[i]);
        if !f && is_sentence_end(s[i]) {
            let rest = chunks_from(s, i + 1, i + 1, f);
            lemma_chunks_end_marks(s, i + 1, i + 1, f);
            assert(all == seq![s.subrange(start, i + 1)] + rest);
            assert forall|j: int| 0 <= j < all.len() - 1 implies {
                let c = #[trigger] all[j];
                c.len() > 0 && is_sentence_end(c.last())
            } by {
                if j > 0 {
                    assert(all[j] == rest[j - 1]);
                } else {
                    assert(all[0] == s.subrange(start, i + 1));
                    assert(all[0].last() == s[i]);
                }
            }
        } else {
            lemma_chunks_end_marks(s, i + 1, start, f);
        }
    }
}

/// A trimmed sequence is empty exactly when every character is blank.
pub proof fn lemma_trim_empty(s: Seq<char>)
    ensures
        trim_seq(s).len() == 0 <==> all_blank(s),
{
    lemma_trim_start_empty(s);
    lemma_trim_end_empty(trim_start_seq(s));
    lemma_trim_start_suffix(s);
    if all_blank(trim_start_seq(s)) && !all_blank(s) {
        let k = (s.len() - trim_start_seq(s).len()) as int;
        assert forall|i: int| 0 <= i < s.len() implies is_blank(#[trigger] s[i]) by {
            if i >= k {
                assert(s[i] == trim_start_seq(s)[i - k]);
            }
        }
    }
}

proof fn lemma_trim_start_suffix(s: Seq<char>)
    ensures
        trim_start_seq(s).len() <= s.len(),
        trim_start_seq(s) == s.subrange(s.len() - trim_start_seq(s).len(), s.len() as int),
        forall|i: int| 0 <= i < s.len() - trim_start_seq(s).len() ==> is_blank(#[trigger] s[i]),
    decreases s.len(),
{
    if s.len() > 0 && is_blank(s[0]) {
        lemma_trim_start_suffix(s.drop_first());
        assert forall|i: int| 0 <= i < s.len() - trim_start_seq(s).len() implies is_blank(
            #[trigger] s[i],
        ) by {
            if i > 0 {
                assert(s[i] == s.drop_first()[i - 1]);
            }
        }
        assert(s.drop_first().subrange(
            s.drop_first().len() - trim_start_seq(s).len(),
            s.drop_first().len() as int,
        ) =~= s.subrange(s.len() - trim_start_seq(s).len(), s.len() as int));
    } else {
        assert(s.subrange(0, s.len() as int) =~= s);
    }
}

proof fn lemma_trim_start_empty(s: Seq<char>)
    ensures
        trim_start_seq(s).len() == 0 <==> all_blank(s),
    decreases s.len(),
{
    if s.len() > 0 && is_blank(s[0]) {
        lemma_trim_start_empty(s.drop_first());
        if all_blank(s.drop_first()) {
            assert forall|i: int| 0 <= i < s.len() implies is_blank(#[trigger] s[i]) by {
                if i > 0 {
                    assert(s[i] == s.drop_first()[i - 1]);
                }
            }
        }
        if all_blank(s) {
            assert forall|i: int| 0 <= i < s.drop_first().len() implies is_blank(
                #[trigger] s.drop_first()[i],
            ) by {
                assert(s.drop_first()[i] == s[i + 1]);
            }
        }
    } else if s.len() > 0 {
        assert(!is_blank(s[0]));
    }
}

proof fn lemma_trim_end_empty(s: Seq<char>)
    ensures
        trim_end_seq(s).len() == 0 <==> all_blank(s),
    decreases s.len(),
{
    if s.len() > 0 && is_blank(s.last()) {
        lemma_trim_end_empty(s.drop_last());
        if all_blank(s.drop_last()) {
            assert forall|i: int| 0 <= i < s.len() implies is_blank(#[trigger] s[i]) by {
                if i < s.len() - 1 {
                    assert(s[i] == s.drop_last()[i]);
                }
            }
        }
        if all_blank(s) {
            assert forall|i: int| 0 <= i < s.drop_last().len() implies is_blank(
                #[trigger] s.drop_last()[i],
            ) by {
                assert(s.drop_last()[i] == s[i]);
            }
        }
    } else if s.len() > 0 {
        assert(!is_blank(s[s.len() - 1]));
    }
}

/// Sentence splitting loses nothing and finds something: the raw pieces put
/// together are the text, every piece but the last ends with a sentence-ending
/// mark, and a text with a character that is not blank has at least one sentence.
pub proof fn law_sentences_cover_text(s: Seq<char>)
    ensures
        sentence_chunks(s).flatten() == s,
        forall|j: int|
            0 <= j < sentence_chunks(s).len() - 1 ==> {
                let c = #[trigger] sentence_chunks(s)[j];
                c.len() > 0 && is_sentence_end(c.last())
            },
        !all_blank(s) ==> sentences_of(s).len() >= 1,
{
    lemma_chunks_flatten(s, 0, 0, false);
    assert(s.subrange(0, s.len() as int) =~= s);
    lemma_chunks_end_marks(s, 0, 0, false);
    lemma_trim_empty(s);
}

/// The characters of `s` that are not blank, in order.
pub open spec fn unblank(s: Seq<char>) -> Seq<char>
    decreases s.len(),
{
    if s.len() == 0 {
        Seq::empty()
    } else {
        unblank(s.drop_last()) + if is_blank(s.last()) {
            Seq::empty()
        } else {
            seq![s.last()]
        }
    }
}

proof fn lemma_unblank_append(a: Seq<char>, b: Seq<char>)
    ensures
        unblank(a + b) == unblank(a) + unblank(b),
    decreases b.len(),
{
    if b.len() == 0 {
        assert(a + b =~= a);
        assert(unblank(a) + unblank(b) =~= unblank(a));
    } else {
        lemma_unblank_append(a, b.drop_last());
        assert((a + b).drop_last() =~= a + b.drop_last());
        assert((a + b).last() == b.last());
        let tail: Seq<char> = if is_blank(b.last()) {
            Seq::empty()
        } else {
            seq![b.last()]
        };
        assert(unblank(a) + unblank(b.drop_last()) + tail =~= unblank(a) + (unblank(b.drop_last())
            + tail));
    }
}

proof fn lemma_unblank_all_blank(s: Seq<char>)
    requires
        all_blank(s),
    ensures
        unblank(s) == Seq::<char>::empty(),
    decreases s.len(),
{
    if s.len() > 0 {
        assert(all_blank(s.drop_last())) by {
            assert forall|i: int| 0 <= i < s.drop_last().len() implies is_blank(
                #[trigger] s.drop_last()[i],
            ) by {
                assert(s.drop_last()[i] == s[i]);
            }
        }
        lemma_unblank_all_blank(s.drop_last());
        assert(is_blank(s[s.len() - 1]));
        assert(unblank(s) =~= Seq::<char>::empty());
    }
}

proof fn lemma_trim_end_prefix(s: Seq<char>)
    ensures
        trim_end_seq(s).len() <= s.len(),
        trim_end_seq(s) == s.subrange(0, trim_end_seq(s).len() as int),
        forall|i: int| trim_end_seq(s).len() <= i < s.len() ==> is_blank(#[trigger] s[i]),
    decreases s.len(),
{
    if s.len() > 0 && is_blank(s.last()) {
        lemma_trim_end_prefix(s.drop_last());
        assert forall|i: int| trim_end_seq(s).len() <= i < s.len() implies is_blank(
            #[trigger] s[i],
        ) by {
            if i < s.len() - 1 {
                assert(s[i] == s.drop_last()[i]);
            }
        }
        assert(s.drop_last().subrange(0, trim_end_seq(s).len() as int) =~= s.subrange(
            0,
            trim_end_seq(s).len() as int,
        ));
    } else {
        assert(s.subrange(0, s.len() as int) =~= s);
    }
}

/// Trimming removes only blank characters.
proof fn lemma_unblank_trim(x: Seq<char>)
    ensures
        unblank(trim_seq(x)) == unblank(x),
{
    let a = trim_start_seq(x);
    lemma_trim_start_suffix(x);
    let k = x.len() - a.len();
    let head = x.subrange(0, k);
    assert(x =~= head + a);
    assert(all_blank(head)) by {
        assert forall|i: int| 0 <= i < head.len() implies is_blank(#[trigger] head[i]) by {
            assert(head[i] == x[i]);
        }
    }
    lemma_unblank_all_blank(head);
    lemma_unblank_append(head, a);
    assert(unblank(x) =~= unblank(a));
    let b = trim_end_seq(a);
    lemma_trim_end_prefix(a);
    let tail = a.subrange(b.len() as int, a.len() as int);
    assert(a =~= b + tail);
    assert(all_blank(tail)) by {
        assert forall|i: int| 0 <= i < tail.len() implies is_blank(#[trigger] tail[i]) by {
            assert(tail[i] == a[b.len() + i]);
        }
    }
    lemma_unblank_all_blank(tail);
    lemma_unblank_append(b, tail);
    assert(unblank(a) =~= unblank(b));
}

proof fn lemma_trim_start_first(x: Seq<char>)
    ensures
        trim_start_seq(x).len() > 0 ==> !is_blank(trim_start_seq(x)[0]),
    decreases x.len(),
{
    if x.len() > 0 && is_blank(x[0]) {
        lemma_trim_start_first(x.drop_first());
    }
}

proof fn lemma_trim_end_last(x: Seq<char>)
    ensures
        trim_end_seq(x).len() > 0 ==> !is_blank(trim_end_seq(x).last()),
    decreases x.len(),
{
    if x.len() > 0 && is_blank(x.last()) {
        lemma_trim_end_last(x.drop_last());
    }
}

/// Trimming twice is trimming once.
pub proof fn lemma_trim_idempotent(x: Seq<char>)
    ensures
        trim_seq(trim_seq(x)) == trim_seq(x),
{
    let a = trim_start_seq(x);
    let b = trim_end_seq(a);
    lemma_trim_start_first(x);
    lemma_trim_end_last(a);
    lemma_trim_end_prefix(a);
    if b.len() > 0 {
        assert(b[0] == a[0]);
        assert(trim_start_seq(b) == b);
        assert(trim_end_seq(b) == b);
    } else {
        assert(trim_start_seq(b) == b);
        assert(trim_end_seq(b) == b);
    }
}

proof fn lemma_trimmed_filled_unblank(pieces: Seq<Seq<char>>)
    ensures
        unblank(trimmed_filled(pieces).flatten_alt()) == unblank(pieces.flatten_alt()),
        forall|i: int|
            0 <= i < trimmed_filled(pieces).len() ==> (#[trigger] trimmed_filled(pieces)[i]).len()
                > 0 && trim_seq(trimmed_filled(pieces)[i]) == trimmed_filled(pieces)[i],
    decreases pieces.len(),
{
    if pieces.len() > 0 {
        let rest = pieces.drop_last();
        let p = pieces.last();
        let t = trim_seq(p);
        lemma_trimmed_filled_unblank(rest);
        let k = trimmed_filled(rest);
        lemma_unblank_append(rest.flatten_alt(), p);
        lemma_unblank_trim(p);
        if t.len() > 0 {
            let k2 = k + seq![t];
            assert(trimmed_filled(pieces) == k2);
            assert(k2.drop_last() =~= k);
            assert(k2.last() == t);
            assert(k2.flatten_alt() == k.flatten_alt() + t);
            lemma_unblank_append(k.flatten_alt(), t);
            lemma_trim_idempotent(p);
            assert forall|i: int| 0 <= i < k2.len() implies (#[trigger] k2[i]).len() > 0
                && trim_seq(k2[i]) == k2[i] by {
                if i < k.len() {
                    assert(k2[i] == k[i]);
                }
            }
        } else {
            assert(trimmed_filled(pieces) =~= k);
            lemma_trim_empty(p);
            lemma_unblank_all_blank(p);
            assert(unblank(rest.flatten_alt()) + unblank(p) =~= unblank(rest.flatten_alt()));
        }
    } else {
        assert(trimmed_filled(pieces) =~= Seq::<Seq<char>>::empty());
    }
}

/// Nothing is lost or repeated by sentence splitting but blanks: the sentences put
/// together, blanks left out, are the text with its blanks left out; and every
/// sentence is non-empty and already trimmed.
pub proof fn law_sentences_keep_text(s: Seq<char>)
    ensures
        unblank(sentences_of(s).flatten()) == unblank(s),
        forall|i: int|
            0 <= i < sentences_of(s).len() ==> (#[trigger] sentences_of(s)[i]).len() > 0
                && trim_seq(sentences_of(s)[i]) == sentences_of(s)[i],
{
    let chunks = sentence_chunks(s);
    law_sentences_cover_text(s);
    chunks.lemma_flatten_and_flatten_alt_are_equivalent();
    lemma_trimmed_filled_unblank(chunks);
    let k = trimmed_filled(chunks);
    k.lemma_flatten_and_flatten_alt_are_equivalent();
    if k.len() == 0 && trim_seq(s).len() > 0 {
        let one = seq![trim_seq(s)];
        one.lemma_flatten_one_element();
        lemma_unblank_trim(s);
        lemma_trim_idempotent(s);
    }
}

/// How many blank characters a sequence starts with.
pub open spec fn lead_len(x: Seq<char>) -> int {
    x.len() - trim_start_seq(x).len()
}

/// Where each kept trimmed piece starts in the pieces put together.
pub open spec fn trimmed_positions(pieces: Seq<Seq<char>>) -> Seq<int>
    decreases pieces.len(),
{
    if pieces.len() == 0 {
        Seq::empty()
    } else {
        let rest = pieces.drop_last();
        let p = pieces.last();
        trimmed_positions(rest) + if trim_seq(p).len() > 0 {
            seq![rest.flatten_alt().len() + lead_len(p)]
        } else {
            Seq::empty()
        }
    }
}

/// The pieces occur in `whole` at the positions, in order and without overlap.
pub open spec fn placed_in_order(whole: Seq<char>, pieces: Seq<Seq<char>>, pos: Seq<int>) -> bool {
    &&& pos.len() == pieces.len()
    &&& forall|i: int|
        0 <= i < pieces.len() ==> 0 <= #[trigger] pos[i] && pos[i] + pieces[i].len() <= whole.len()
            && whole.subrange(pos[i], pos[i] + pieces[i].len()) == pieces[i]
    &&& forall|i: int, j: int|
        0 <= i < j < pieces.len() ==> #[trigger] pos[i] + pieces[i].len() <= #[trigger] pos[j]
}

proof fn lemma_trim_within(x: Seq<char>)
    ensures
        0 <= lead_len(x),
        lead_len(x) + trim_seq(x).len() <= x.len(),
        x.subrange(lead_len(x), lead_len(x) + trim_seq(x).len()) == trim_seq(x),
{
    let a = trim_start_seq(x);
    lemma_trim_start_suffix(x);
    lemma_trim_end_prefix(a);
    let k = lead_len(x);
    let b = trim_seq(x);
    assert(x.subrange(k, k + b.len()) =~= a.subrange(0, b.len() as int));
}

proof fn lemma_trimmed_positions(pieces: Seq<Seq<char>>)
    ensures
        placed_in_order(pieces.flatten_alt(), trimmed_filled(pieces), trimmed_positions(pieces)),
    decreases pieces.len(),
{
    if pieces.len() > 0 {
        let rest = pieces.drop_last();
        let p = pieces.last();
        let t = trim_seq(p);
        lemma_trimmed_positions(rest);
        let fr = rest.flatten_alt();
        let f = pieces.flatten_alt();
        assert(f == fr + p);
        let k = trimmed_filled(rest);
        let ps = trimmed_positions(rest);
        assert forall|i: int| 0 <= i < k.len() implies 0 <= #[trigger] ps[i] && ps[i] + k[i].len()
            <= f.len() && f.subrange(ps[i], ps[i] + k[i].len()) == k[i] by {
            assert(f.subrange(ps[i], ps[i] + k[i].len()) =~= fr.subrange(ps[i], ps[i] + k[i].len()));
        }
        if t.len() > 0 {
            lemma_trim_within(p);
            let q = fr.len() + lead_len(p);
            let k2 = k + seq![t];
            let ps2 = ps + seq![q];
            assert(trimmed_filled(pieces) == k2);
            assert(trimmed_positions(pieces) == ps2);
            assert(f.subrange(q, q + t.len()) =~= p.subrange(lead_len(p), lead_len(p) + t.len()));
            assert forall|i: int| 0 <= i < k2.len() implies 0 <= #[trigger] ps2[i] && ps2[i]
                + k2[i].len() <= f.len() && f.subrange(ps2[i], ps2[i] + k2[i].len()) == k2[i] by {
                if i < k.len() {
                    assert(ps2[i] == ps[i] && k2[i] == k[i]);
                }
            }
            assert forall|i: int, j: int| 0 <= i < j < k2.len() implies #[trigger] ps2[i]
                + k2[i].len() <= #[trigger] ps2[j] by {
                assert(ps2[i] == ps[i] && k2[i] == k[i]);
                if j < k.len() {
                    assert(ps2[j] == ps[j] && k2[j] == k[j]);
                }
            }
        } else {
            assert(trimmed_filled(pieces) =~= k);
            assert(trimmed_positions(pieces) =~= ps);
        }
    } else {
        assert(trimmed_filled(pieces) =~= Seq::<Seq<char>>::empty());
        assert(trimmed_positions(pieces) =~= Seq::<int>::empty());
    }
}

/// Where each sentence of a text starts in it.
pub open spec fn sentence_positions(s: Seq<char>) -> Seq<int> {
    let k = trimmed_filled(sentence_chunks(s));
    if k.len() == 0 && trim_seq(s).len() > 0 {
        seq![lead_len(s)]
    } else {
        trimmed_positions(sentence_chunks(s))
    }
}

/// The sentences stand in the text in their order: each at its position, and
/// each ending before the next one starts.
pub proof fn law_sentences_in_place(s: Seq<char>)
    ensures
        placed_in_order(s, sentences_of(s), sentence_positions(s)),
{
    let chunks = sentence_chunks(s);
    law_sentences_cover_text(s);
    chunks.lemma_flatten_and_flatten_alt_are_equivalent();
    lemma_trimmed_positions(chunks);
    let k = trimmed_filled(chunks);
    if k.len() == 0 && trim_seq(s).len() > 0 {
        lemma_trim_within(s);
        let one = seq![trim_seq(s)];
        let pos = seq![lead_len(s)];
        assert(one[0] == trim_seq(s) && pos[0] == lead_len(s));
    }
}

/// Splits a text into sentences.
pub struct SentenceAnalyzer;

impl SentenceAnalyzer {
    /// The sentences of `text`: pieces that end with `。`, `！` or `？` read outside
    /// a quotation, trimmed of blanks, empty ones left out.
    pub fn analyze(text: &str) -> (r: Vec<String>)
        ensures
            string_views(r@) == sentences_of(text@),
    {
        let chars = chars_of(text);
        sentences_of_chars(&chars)
    }
}

/// The sentences of the characters of a text; see `SentenceAnalyzer::analyze`.
pub fn sentences_of_chars(chars: &Vec<char>) -> (r: Vec<String>)
    ensures
        string_views(r@) == sentences_of(chars@),
{
    let ghost s = chars@;
    let n = chars.len();
    let mut sentences: Vec<String> = Vec::new();
    let mut start: usize = 0;
    let mut in_dialogue = false;
    let mut i: usize = 0;
    let ghost mut done: Seq<Seq<char>> = Seq::empty();
    while i < n
        invariant
            s == chars@,
            n == s.len(),
            start <= i <= n,
            string_views(sentences@) == trimmed_filled(done),
            done + chunks_from(s, i as int, start as int, in_dialogue) == sentence_chunks(s),
        decreases n - i,
    {
        let ch = chars[i];
        if ch == '「' || ch == '『' {
            in_dialogue = true;
        } else if ch == '」' || ch == '』' {
            in_dialogue = false;
        }
        if !in_dialogue && is_sentence_end_char(ch) {
            let (lo, hi) = trim_bounds(chars, start, i + 1);
            let ghost p = s.subrange(start as int, i + 1);
            let ghost old_views = string_views(sentences@);
            proof {
                lemma_trimmed_filled_push(done, p);
            }
            if lo < hi {
                let sentence = string_of(chars, lo, hi);
                sentences.push(sentence);
                assert(string_views(sentences@) =~= old_views + seq![trim_seq(p)]);
            } else {
                assert(old_views + Seq::<Seq<char>>::empty() =~= old_views);
            }
            proof {
                assert(done.push(p) + chunks_from(s, i + 1, i + 1, in_dialogue) =~= done + (seq![p]
                    + chunks_from(s, i + 1, i + 1, in_dialogue)));
                done = done.push(p);
            }
            start = i + 1;
        }
        i = i + 1;
    }
    let (lo, hi) = trim_bounds(chars, start, n);
    let ghost p = s.subrange(start as int, n as int);
    let ghost old_views = string_views(sentences@);
    proof {
        lemma_trimmed_filled_push(done, p);
        assert(done.push(p) =~= done + chunks_from(s, n as int, start as int, in_dialogue));
        done = done.push(p);
    }
    if lo < hi {
        let sentence = string_of(chars, lo, hi);
        sentences.push(sentence);
        assert(string_views(sentences@) =~= old_views + seq![trim_seq(p)]);
    } else {
        assert(old_views + Seq::<Seq<char>>::empty() =~= old_views);
    }
    if sentences.len() == 0 {
        let (lo, hi) = trim_bounds(chars, 0, n);
        assert(s.subrange(0, n as int) =~= s);
        if lo < hi {
            let whole = string_of(chars, lo, hi);
            sentences.push(whole);
            assert(string_views(sentences@) =~= seq![trim_seq(s)]);
        }
    }
    sentences
}

} // verus!
