use vstd::prelude::*;

use crate::models::{BasicStats, CharTypeDistribution};
use crate::text::{chars_of, is_sentence_end, is_sentence_end_char, trim_bounds, trim_seq};

verus! {

/// The class that a character is counted in; the first rule that matches wins.
#[derive(Clone, Copy, Debug, PartialEq, Eq, Structural)]
pub enum CharClass {
    Hiragana,
    Katakana,
    Kanji,
    Alphabet,
    Number,
    Punctuation,
    Space,
    Other,
}

/// Whether `c` is one of the punctuation marks that the profiler counts.
pub open spec fn is_punctuation(c: char) -> bool {
    c == '。' || c == '、' || c == '！' || c == '？' || c == '「' || c == '」' || c == '『'
        || c == '』' || c == '（' || c == '）' || c == '・' || c == '…' || c == '―' || c == '—'
}

/// Whether `c` is a space or a line break, which no class counts.
pub open spec fn is_layout_space(c: char) -> bool {
    c == '\n' || c == '\r' || c == '\t' || c == ' ' || c == '　'
}

/// The class of a character, by fixed code point ranges checked in order.
pub open spec fn class_of(c: char) -> CharClass {
    if 'ぁ' <= c && c <= 'ん' {
        CharClass::Hiragana
    } else if ('ァ' <= c && c <= 'ヶ') || c == 'ー' {
        CharClass::Katakana
    } else if ('一' <= c && c <= '龥') || c == '々' {
        CharClass::Kanji
    } else if ('a' <= c && c <= 'z') || ('A' <= c && c <= 'Z') {
        CharClass::Alphabet
    } else if ('0' <= c && c <= '9') || ('０' <= c && c <= '９') {
        CharClass::Number
    } else if is_punctuation(c) {
        CharClass::Punctuation
    } else if is_layout_space(c) {
        CharClass::Space
    } else {
        CharClass::Other
    }
}

/// The class of a character.
pub fn classify(c: char) -> (r: CharClass)
    ensures
        r == class_of(c),
{
    if 'ぁ' <= c && c <= 'ん' {
        CharClass::Hiragana
    } else if ('ァ' <= c && c <= 'ヶ') || c == 'ー' {
        CharClass::Katakana
    } else if ('一' <= c && c <= '龥') || c == '々' {
        CharClass::Kanji
    } else if ('a' <= c && c <= 'z') || ('A' <= c && c <= 'Z') {
        CharClass::Alphabet
    } else if ('0' <= c && c <= '9') || ('０' <= c && c <= '９') {
        CharClass::Number
    } else if c == '。' || c == '、' || c == '！' || c == '？' || c == '「' || c == '」'
        || c == '『' || c == '』' || c == '（' || c == '）' || c == '・' || c == '…'
        || c == '―' || c == '—' {
        CharClass::Punctuation
    } else if c == '\n' || c == '\r' || c == '\t' || c == ' ' || c == '　' {
        CharClass::Space
    } else {
        CharClass::Other
    }
}

/// How many characters of `s` are of class `k`.
pub open spec fn class_count(s: Seq<char>, k: CharClass) -> nat
    decreases s.len(),
{
    if s.len() == 0 {
        0
    } else {
        class_count(s.drop_last(), k) + if class_of(s.last()) == k {
            1nat
        } else {
            0nat
        }
    }
}

/// The class counts of a text.
pub open spec fn distribution_of(s: Seq<char>) -> CharTypeDistribution {
    CharTypeDistribution {
        hiragana: class_count(s, CharClass::Hiragana) as usize,
        katakana: class_count(s, CharClass::Katakana) as usize,
        kanji: class_count(s, CharClass::Kanji) as usize,
        alphabet: class_count(s, CharClass::Alphabet) as usize,
        number: class_count(s, CharClass::Number) as usize,
        punctuation: class_count(s, CharClass::Punctuation) as usize,
        other: class_count(s, CharClass::Other) as usize,
    }
}

/// The sum of the counts of all eight classes.
pub open spec fn all_class_counts(s: Seq<char>) -> nat {
    class_count(s, CharClass::Hiragana) + class_count(s, CharClass::Katakana) + class_count(
        s,
        CharClass::Kanji,
    ) + class_count(s, CharClass::Alphabet) + class_count(s, CharClass::Number) + class_count(
        s,
        CharClass::Punctuation,
    ) + class_count(s, CharClass::Other) + class_count(s, CharClass::Space)
}

/// Every character falls into exactly one class: the seven counted classes and the
/// uncounted spaces together hold every character of the text once.
pub proof fn lemma_classes_partition(s: Seq<char>)
    ensures
        all_class_counts(s) == s.len(),
    decreases s.len(),
{
    if s.len() > 0 {
        lemma_classes_partition(s.drop_last());
    }
}

/// The seven counts of the distribution and the uncounted spaces add up to the
/// length of the text.
pub proof fn law_distribution_exhaustive(s: Seq<char>)
    requires
        s.len() <= usize::MAX,
    ensures
        distribution_of(s).spec_total() + class_count(s, CharClass::Space) == s.len(),
{
    lemma_classes_partition(s);
}

/// Counts the characters of `text` by class.
pub fn analyze_char_types(text: &Vec<char>) -> (r: CharTypeDistribution)
    ensures
        r == distribution_of(text@),
        r.spec_total() <= text@.len(),
{
    let ghost s = text@;
    let mut d = CharTypeDistribution {
        hiragana: 0,
        katakana: 0,
        kanji: 0,
        alphabet: 0,
        number: 0,
        punctuation: 0,
        other: 0,
    };
    let mut spaces: usize = 0;
    let mut i: usize = 0;
    while i < text.len()
        invariant
            s == text@,
            i <= s.len(),
            d == distribution_of(s.take(i as int)),
            spaces == class_count(s.take(i as int), CharClass::Space),
        decreases s.len() - i,
    {
        let ghost t = s.take(i as int + 1);
        assert(t.drop_last() =~= s.take(i as int));
        proof {
            lemma_classes_partition(t);
        }
        match classify(text[i]) {
            CharClass::Hiragana => d.hiragana = d.hiragana + 1,
            CharClass::Katakana => d.katakana = d.katakana + 1,
            CharClass::Kanji => d.kanji = d.kanji + 1,
            CharClass::Alphabet => d.alphabet = d.alphabet + 1,
            CharClass::Number => d.number = d.number + 1,
            CharClass::Punctuation => d.punctuation = d.punctuation + 1,
            CharClass::Space => spaces = spaces + 1,
            CharClass::Other => d.other = d.other + 1,
        }
        i = i + 1;
    }
    assert(s.take(i as int) =~= s);
    proof {
        lemma_classes_partition(s);
    }
    d
}

/// The pieces of `s[start..]` between the separators `"\n\n"`, searched from
/// position `i` on, left to right and without overlap.
pub open spec fn paragraph_pieces(s: Seq<char>, i: int, start: int) -> Seq<Seq<char>>
    recommends
        0 <= start <= i <= s.len(),
    decreases s.len() - i,
{
    if i + 1 < s.len() && s[i] == '\n' && s[i + 1] == '\n' {
        seq![s.subrange(start, i)] + paragraph_pieces(s, i + 2, i + 2)
    } else if 0 <= i < s.len() {
        paragraph_pieces(s, i + 1, start)
    } else {
        seq![s.subrange(start, s.len() as int)]
    }
}

/// How many of the pieces hold a character that is not blank.
pub open spec fn count_filled(pieces: Seq<Seq<char>>) -> nat
    decreases pieces.len(),
{
    if pieces.len() == 0 {
        0
    } else {
        count_filled(pieces.drop_last()) + if trim_seq(pieces.last()).len() > 0 {
            1nat
        } else {
            0nat
        }
    }
}

/// The number of paragraphs: the pieces between blank lines that are not
/// themselves blank, and at least one.
pub open spec fn paragraph_count(s: Seq<char>) -> nat {
    let n = count_filled(paragraph_pieces(s, 0, 0));
    if n == 0 {
        1
    } else {
        n
    }
}

/// The number of characters of `s` that end a sentence.
pub open spec fn count_sentence_ends(s: Seq<char>) -> nat
    decreases s.len(),
{
    if s.len() == 0 {
        0
    } else {
        count_sentence_ends(s.drop_last()) + if is_sentence_end(s.last()) {
            1nat
        } else {
            0nat
        }
    }
}

/// The basic statistics of a text.
pub open spec fn basic_stats_of(s: Seq<char>) -> BasicStats {
    BasicStats {
        total_chars: s.len() as usize,
        total_sentences: if count_sentence_ends(s) == 0 {
            1
        } else {
            count_sentence_ends(s) as usize
        },
        total_paragraphs: paragraph_count(s) as usize,
        char_types: distribution_of(s),
    }
}

proof fn lemma_count_filled_push(pieces: Seq<Seq<char>>, p: Seq<char>)
    ensures
        count_filled(pieces.push(p)) == count_filled(pieces) + if trim_seq(p).len() > 0 {
            1nat
        } else {
            0nat
        },
{
    assert(pieces.push(p).drop_last() =~= pieces);
}

proof fn lemma_count_filled_le(pieces: Seq<Seq<char>>)
    ensures
        count_filled(pieces) <= pieces.len(),
    decreases pieces.len(),
{
    if pieces.len() > 0 {
        lemma_count_filled_le(pieces.drop_last());
    }
}

/// The number of paragraphs in `text`: pieces between blank lines that hold more
/// than blanks, and at least one.
pub fn count_paragraphs(text: &Vec<char>) -> (r: usize)
    ensures
        r == paragraph_count(text@),
{
    let ghost s = text@;
    let n = text.len();
    let mut count: usize = 0;
    let mut start: usize = 0;
    let mut i: usize = 0;
    let ghost mut done: Seq<Seq<char>> = Seq::empty();
    while i < n
        invariant
            s == text@,
            n == s.len(),
            start <= i <= n,
            count == count_filled(done),
            count <= done.len(),
            2 * done.len() <= i,
            done + paragraph_pieces(s, i as int, start as int) == paragraph_pieces(s, 0, 0),
        decreases n - i,
    {
        if i + 1 < n && text[i] == '\n' && text[i + 1] == '\n' {
            let (lo, hi) = trim_bounds(text, start, i);
            proof {
                let p = s.subrange(start as int, i as int);
                lemma_count_filled_push(done, p);
                lemma_count_filled_le(done.push(p));
                assert(done.push(p) + paragraph_pieces(s, i + 2, i + 2) =~= done + (seq![p]
                    + paragraph_pieces(s, i + 2, i + 2)));
                done = done.push(p);
            }
            if lo < hi {
                count = count + 1;
            }
            i = i + 2;
            start = i;
        } else {
            i = i + 1;
        }
    }
    let (lo, hi) = trim_bounds(text, start, n);
    proof {
        let p = s.subrange(start as int, n as int);
        lemma_count_filled_push(done, p);
        assert(done.push(p) =~= done + paragraph_pieces(s, n as int, start as int));
        done = done.push(p);
        lemma_count_filled_le(done);
    }
    if lo < hi {
        count = count + 1;
    }
    if count == 0 {
        1
    } else {
        count
    }
}

/// The number of characters of `text` that end a sentence.
pub fn count_sentence_end_chars(text: &Vec<char>) -> (r: usize)
    ensures
        r == count_sentence_ends(text@),
{
    let ghost s = text@;
    let mut count: usize = 0;
    let mut i: usize = 0;
    while i < text.len()
        invariant
            s == text@,
            i <= s.len(),
            count == count_sentence_ends(s.take(i as int)),
            count <= i,
        decreases s.len() - i,
    {
        assert(s.take(i as int + 1).drop_last() =~= s.take(i as int));
        if is_sentence_end_char(text[i]) {
            count = count + 1;
        }
        i = i + 1;
    }
    assert(s.take(i as int) =~= s);
    count
}

/// Basic statistics of the characters of a text.
pub fn basic_stats_of_chars(text: &Vec<char>) -> (r: BasicStats)
    ensures
        r == basic_stats_of(text@),
{
    let total_chars = text.len();
    let total_paragraphs = count_paragraphs(text);
    let char_types = analyze_char_types(text);
    let ends = count_sentence_end_chars(text);
    let total_sentences = if ends == 0 {
        1
    } else {
        ends
    };
    BasicStats { total_chars, total_sentences, total_paragraphs, char_types }
}

/// Computes the basic statistics of a text.
pub struct BasicStatsAnalyzer;

impl BasicStatsAnalyzer {
    /// Counts characters, sentence ends (at least one), paragraphs (at least one)
    /// and the characters of each class.
    pub fn analyze(text: &str) -> (r: BasicStats)
        ensures
            r == basic_stats_of(text@),
    {
        let chars = chars_of(text);
        basic_stats_of_chars(&chars)
    }
}

} // verus!
