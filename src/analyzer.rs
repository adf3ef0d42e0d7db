use vstd::prelude::*;

use crate::dialogue::{dialogue_stats_of, dialogue_stats_of_chars};
use crate::models::{
    BasicStats, Ratio, ReadabilityFactors, ReadabilityScore, RhythmMetrics, TextProfile,
};
use crate::rhythm::{
    lengths_of, mean_of, square_sum, tempo_of, variation_squared_of, RhythmAnalyzer,
};
use crate::sentence::{sentences_of, sentences_of_chars};
use crate::stats::{basic_stats_of, basic_stats_of_chars, law_distribution_exhaustive};
use crate::text::{chars_of, string_of};

verus! {

/// The text with each `"\r\n"` and each other `'\r'` turned into `'\n'`.
pub open spec fn normalize(s: Seq<char>) -> Seq<char>
    decreases s.len(),
{
    if s.len() == 0 {
        Seq::empty()
    } else if s[0] == '\r' && s.len() >= 2 && s[1] == '\n' {
        seq!['\n'] + normalize(s.subrange(2, s.len() as int))
    } else if s[0] == '\r' {
        seq!['\n'] + normalize(s.drop_first())
    } else {
        seq![s[0]] + normalize(s.drop_first())
    }
}

/// The characters of a text with line endings made uniform.
pub fn normalize_chars(chars: &Vec<char>) -> (r: Vec<char>)
    ensures
        r@ == normalize(chars@),
{
    let ghost s = chars@;
    let n = chars.len();
    let mut out: Vec<char> = Vec::new();
    let mut i: usize = 0;
    assert(s.subrange(0, n as int) =~= s);
    while i < n
        invariant
            s == chars@,
            n == s.len(),
            i <= n,
            out@ + normalize(s.subrange(i as int, n as int)) == normalize(s),
        decreases n - i,
    {
        let ghost rest = s.subrange(i as int, n as int);
        let ghost before = out@;
        if chars[i] == '\r' {
            out.push('\n');
            if i + 1 < n && chars[i + 1] == '\n' {
                assert(rest.subrange(2, rest.len() as int) =~= s.subrange(i + 2, n as int));
                i = i + 2;
            } else {
                assert(rest.drop_first() =~= s.subrange(i + 1, n as int));
                i = i + 1;
            }
        } else {
            out.push(chars[i]);
            assert(rest.drop_first() =~= s.subrange(i + 1, n as int));
            i = i + 1;
        }
        assert(out@ + normalize(s.subrange(i as int, n as int)) =~= before + normalize(rest));
    }
    assert(normalize(s.subrange(n as int, n as int)) =~= Seq::<char>::empty());
    assert(out@ + Seq::<char>::empty() =~= out@);
    out
}

/// A text with `"\r\n"` and lone `'\r'` turned into `'\n'`.
pub fn normalize_text(text: &str) -> (r: String)
    ensures
        r@ == normalize(text@),
{
    let chars = chars_of(text);
    let normalized = normalize_chars(&chars);
    string_of(&normalized, 0, normalized.len())
}

/// The readability score for the given basic statistics and mean sentence length.
/// With `h` the share of hiragana: `min(100 h, 50) * 2` points, 30 points for a
/// mean below 40, 20 below 60 and 10 otherwise, and 20 points where sentences per
/// hundred characters lie strictly between 2 and 5, 10 otherwise; at most 100.
pub open spec fn readability_of(stats: BasicStats, avg: Ratio) -> ReadabilityScore {
    let total = stats.char_types.spec_total();
    let h = if total > 0 {
        Ratio { num: stats.char_types.hiragana as u128, den: total as u128 }
    } else {
        Ratio { num: 0, den: 1 }
    };
    let hiragana_points = 2 * if 100 * h.num <= 50 * h.den {
        100 * h.num
    } else {
        50 * h.den
    };
    let sentence_points: int = if avg.num < 40 * avg.den {
        30
    } else if avg.num < 60 * avg.den {
        20
    } else {
        10
    };
    let density = Ratio {
        num: (100 * stats.total_sentences) as u128,
        den: if stats.total_chars == 0 {
            1
        } else {
            stats.total_chars as u128
        },
    };
    let punctuation_points: int = if 2 * density.den < density.num && density.num < 5 * density.den {
        20
    } else {
        10
    };
    let points = hiragana_points + (sentence_points + punctuation_points) * h.den;
    ReadabilityScore {
        score: Ratio {
            num: if points <= 100 * h.den {
                points as u128
            } else {
                (100 * h.den) as u128
            },
            den: h.den,
        },
        factors: ReadabilityFactors {
            hiragana_ratio: h,
            sentence_complexity: avg,
            punctuation_density: density,
            paragraph_structure: Ratio { num: 0, den: 1 },
        },
    }
}

/// When at least half of the counted characters are hiragana, the hiragana part
/// alone reaches the cap: the score is 100 whatever the other factors are.
pub proof fn law_hiragana_caps_score(stats: BasicStats, avg: Ratio)
    requires
        stats.char_types.spec_total() > 0,
        2 * stats.char_types.hiragana >= stats.char_types.spec_total(),
    ensures
        readability_of(stats, avg).score.num == 100 * readability_of(stats, avg).score.den,
{
}

/// Combines the share of hiragana, the mean sentence length and the density of
/// sentence ends into a score between 0 and 100.
pub fn calculate_readability(stats: &BasicStats, rhythm: &RhythmMetrics) -> (r: ReadabilityScore)
    requires
        stats.char_types.spec_total() <= usize::MAX,
        rhythm.avg_sentence_length.wf(),
    ensures
        r == readability_of(*stats, rhythm.avg_sentence_length),
        r.score.wf(),
        r.score.num <= 100 * r.score.den,
{
    let h = stats.char_types.hiragana_ratio();
    let avg = rhythm.avg_sentence_length;
    let hiragana_points: u128 = 2 * if 100 * h.num <= 50 * h.den {
        100 * h.num
    } else {
        50 * h.den
    };
    let sentence_points: u128 = if avg.den > u128::MAX / 40 || avg.num < 40 * avg.den {
        30
    } else if avg.den > u128::MAX / 60 || avg.num < 60 * avg.den {
        20
    } else {
        10
    };
    let chars: u128 = if stats.total_chars == 0 {
        1
    } else {
        stats.total_chars as u128
    };
    let density = Ratio { num: 100 * (stats.total_sentences as u128), den: chars };
    let punctuation_points: u128 = if 2 * density.den < density.num && density.num < 5
        * density.den {
        20
    } else {
        10
    };
    assert((sentence_points + punctuation_points) * h.den <= 50 * h.den) by (nonlinear_arith)
        requires
            sentence_points + punctuation_points <= 50,
    ;
    let points = hiragana_points + (sentence_points + punctuation_points) * h.den;
    let score_num = if points <= 100 * h.den {
        points
    } else {
        100 * h.den
    };
    ReadabilityScore {
        score: Ratio { num: score_num, den: h.den },
        factors: ReadabilityFactors {
            hiragana_ratio: h,
            sentence_complexity: avg,
            punctuation_density: density,
            paragraph_structure: Ratio { num: 0, den: 1 },
        },
    }
}

/// Whether `p` is the profile of `text`: every analysis runs on the text with
/// uniform line endings, and the rhythm on its sentences.
pub open spec fn profile_matches(p: TextProfile, text: Seq<char>) -> bool {
    let s = normalize(text);
    let l = lengths_of(sentences_of(s));
    &&& p.basic_stats == basic_stats_of(s)
    &&& p.dialogue_stats == dialogue_stats_of(s)
    &&& p.rhythm_metrics.sentence_lengths@ == l
    &&& p.rhythm_metrics.avg_sentence_length == mean_of(l)
    &&& (p.rhythm_metrics.variation_squared is Some <==> l.len() * square_sum(l) <= u128::MAX)
    &&& (p.rhythm_metrics.variation_squared is Some ==> p.rhythm_metrics.variation_squared == Some(
        variation_squared_of(l),
    ))
    &&& p.rhythm_metrics.tempo_pattern == tempo_of(l)
    &&& p.readability == readability_of(basic_stats_of(s), mean_of(l))
}

/// The profile depends on the text alone: two profiles of the same text agree in
/// every field.
pub proof fn law_profile_deterministic(text: Seq<char>, a: TextProfile, b: TextProfile)
    requires
        profile_matches(a, text),
        profile_matches(b, text),
    ensures
        a.basic_stats == b.basic_stats,
        a.dialogue_stats == b.dialogue_stats,
        a.rhythm_metrics.sentence_lengths@ == b.rhythm_metrics.sentence_lengths@,
        a.rhythm_metrics.avg_sentence_length == b.rhythm_metrics.avg_sentence_length,
        a.rhythm_metrics.variation_squared == b.rhythm_metrics.variation_squared,
        a.rhythm_metrics.tempo_pattern == b.rhythm_metrics.tempo_pattern,
        a.readability == b.readability,
{
}

/// Profiles a text: basic counts, dialogue share, sentence rhythm and
/// readability, all computed on the text with uniform line endings.
pub fn analyze(text: &str) -> (r: TextProfile)
    ensures
        profile_matches(r, text@),
        r.readability.score.num <= 100 * r.readability.score.den,
{
    let chars = chars_of(text);
    let normalized = normalize_chars(&chars);
    let ghost s = normalized@;
    assert(s.len() == normalized.len());
    let basic_stats = basic_stats_of_chars(&normalized);
    let sentences = sentences_of_chars(&normalized);
    let dialogue_stats = dialogue_stats_of_chars(&normalized);
    let rhythm_metrics = RhythmAnalyzer::analyze(&sentences);
    proof {
        law_distribution_exhaustive(s);
    }
    let readability = calculate_readability(&basic_stats, &rhythm_metrics);
    TextProfile { basic_stats, dialogue_stats, rhythm_metrics, readability }
}

} // verus!
