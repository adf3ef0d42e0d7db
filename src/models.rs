use vstd::prelude::*;

verus! {

/// An exact non-negative fraction `num / den`, used where a statistic is a ratio
/// of counts.
#[derive(Clone, Copy, Debug, PartialEq, Eq, Structural)]
pub struct Ratio {
    pub num: u128,
    pub den: u128,
}

impl Ratio {
    /// The fraction has a positive denominator.
    pub open spec fn wf(&self) -> bool {
        self.den > 0
    }

    /// `num / den`, or zero where the denominator is zero.
    pub fn of(num: u128, den: u128) -> (r: Ratio)
        ensures
            r.wf(),
            den > 0 ==> r == (Ratio { num, den }),
            den == 0 ==> r == (Ratio { num: 0, den: 1 }),
    {
        if den == 0 {
            Ratio { num: 0, den: 1 }
        } else {
            Ratio { num, den }
        }
    }

    /// Whether the fraction is at most one.
    pub open spec fn at_most_one(&self) -> bool {
        self.num <= self.den
    }
}

/// How many characters of a text fall into each class; blank characters are
/// counted in none of them.
#[derive(Clone, Copy, Debug, PartialEq, Eq, Structural)]
pub struct CharTypeDistribution {
    pub hiragana: usize,
    pub katakana: usize,
    pub kanji: usize,
    pub alphabet: usize,
    pub number: usize,
    pub punctuation: usize,
    pub other: usize,
}

impl CharTypeDistribution {
    /// The sum of the seven counts.
    pub open spec fn spec_total(&self) -> int {
        self.hiragana + self.katakana + self.kanji + self.alphabet + self.number
            + self.punctuation + self.other
    }

    /// The number of characters counted in any class.
    pub fn total(&self) -> (r: usize)
        requires
            self.spec_total() <= usize::MAX,
        ensures
            r == self.spec_total(),
    {
        self.hiragana + self.katakana + self.kanji + self.alphabet + self.number
            + self.punctuation + self.other
    }

    /// The share of hiragana among the counted characters; zero when none was counted.
    pub fn hiragana_ratio(&self) -> (r: Ratio)
        requires
            self.spec_total() <= usize::MAX,
        ensures
            r.wf(),
            r.at_most_one(),
            r.den <= usize::MAX,
            self.spec_total() > 0 ==> r == (Ratio {
                num: self.hiragana as u128,
                den: self.spec_total() as u128,
            }),
            self.spec_total() == 0 ==> r == (Ratio { num: 0, den: 1 }),
    {
        let total = self.total();
        Ratio::of(self.hiragana as u128, total as u128)
    }
}

/// Counts that describe the size and make-up of a text.
#[derive(Clone, Copy, Debug, PartialEq, Eq, Structural)]
pub struct BasicStats {
    pub total_chars: usize,
    pub total_sentences: usize,
    pub total_paragraphs: usize,
    pub char_types: CharTypeDistribution,
}

/// How much of a text is quoted speech.
#[derive(Clone, Copy, Debug, PartialEq, Eq, Structural)]
pub struct DialogueStats {
    pub dialogue_chars: usize,
    pub narrative_chars: usize,
    pub dialogue_ratio: Ratio,
    pub dialogue_count: usize,
}

/// A coarse description of how sentence lengths change through a text.
#[derive(Clone, Copy, Debug, PartialEq, Eq, Structural)]
pub enum TempoPattern {
    Steady,
    Varied,
    Accelerating,
    Decelerating,
    Alternating,
}

/// Sentence-length statistics: the length of each sentence in order, their mean,
/// how widely they vary and the tempo they make. The variation coefficient
/// (standard deviation over mean) is in general irrational, so its exact square is
/// kept; it is `None` only where that square does not fit in 128 bits.
#[derive(Clone, Debug)]
pub struct RhythmMetrics {
    pub sentence_lengths: Vec<usize>,
    pub avg_sentence_length: Ratio,
    pub variation_squared: Option<Ratio>,
    pub tempo_pattern: TempoPattern,
}

/// The inputs of the readability score.
#[derive(Clone, Copy, Debug, PartialEq, Eq, Structural)]
pub struct ReadabilityFactors {
    pub hiragana_ratio: Ratio,
    pub sentence_complexity: Ratio,
    pub punctuation_density: Ratio,
    /// Not computed yet: always zero.
    pub paragraph_structure: Ratio,
}

/// A readability score between 0 and 100 with the factors it was computed from.
#[derive(Clone, Copy, Debug, PartialEq, Eq, Structural)]
pub struct ReadabilityScore {
    pub score: Ratio,
    pub factors: ReadabilityFactors,
}

/// Everything that the profiler finds out about one text.
#[derive(Clone, Debug)]
pub struct TextProfile {
    pub basic_stats: BasicStats,
    pub dialogue_stats: DialogueStats,
    pub rhythm_metrics: RhythmMetrics,
    pub readability: ReadabilityScore,
}

/// The kind of a span of text.
#[derive(Clone, Copy, Debug, PartialEq, Eq, Structural)]
pub enum SegmentType {
    Dialogue,
    Narrative,
    Unknown,
}

/// A span `[start, end)` of a text, counted in characters, with its content.
#[derive(Clone, Debug)]
pub struct TextSegment {
    pub start: usize,
    pub end: usize,
    pub content: String,
    pub segment_type: SegmentType,
}

} // verus!
