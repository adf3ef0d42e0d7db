use vstd::prelude::*;

use crate::models::{Ratio, RhythmMetrics, TempoPattern};
use crate::sentence::string_views;

verus! {

/// How many consecutive pairs of `l` grow.
pub open spec fn rises(l: Seq<usize>) -> nat
    decreases l.len(),
{
    if l.len() < 2 {
        0
    } else {
        rises(l.drop_last()) + if l[l.len() - 1] > l[l.len() - 2] {
            1nat
        } else {
            0nat
        }
    }
}

/// How many consecutive pairs of `l` shrink.
pub open spec fn falls(l: Seq<usize>) -> nat
    decreases l.len(),
{
    if l.len() < 2 {
        0
    } else {
        falls(l.drop_last()) + if l[l.len() - 1] < l[l.len() - 2] {
            1nat
        } else {
            0nat
        }
    }
}

/// Whether `b` is strictly above or strictly below both of its neighbours.
pub open spec fn is_turn(a: usize, b: usize, c: usize) -> bool {
    (b > a && c < b) || (b < a && c > b)
}

/// How many windows of three consecutive values of `l` turn at their middle.
pub open spec fn turns(l: Seq<usize>) -> nat
    decreases l.len(),
{
    if l.len() < 3 {
        0
    } else {
        turns(l.drop_last()) + if is_turn(l[l.len() - 3], l[l.len() - 2], l[l.len() - 1]) {
            1nat
        } else {
            0nat
        }
    }
}

/// The tempo of a sequence of sentence lengths. With `t` transitions between
/// neighbours, the first rule that holds decides: turns over `t` above 0.6,
/// rises over `t` above 0.7, falls over `t` above 0.7, rises and falls together
/// over `t` above 0.8. Fewer than three lengths are steady.
pub open spec fn tempo_of(l: Seq<usize>) -> TempoPattern {
    if l.len() < 3 {
        TempoPattern::Steady
    } else {
        let t = l.len() - 1;
        if 10 * turns(l) > 6 * t {
            TempoPattern::Alternating
        } else if 10 * rises(l) > 7 * t {
            TempoPattern::Accelerating
        } else if 10 * falls(l) > 7 * t {
            TempoPattern::Decelerating
        } else if 10 * (rises(l) + falls(l)) > 8 * t {
            TempoPattern::Varied
        } else {
            TempoPattern::Steady
        }
    }
}

/// The sum of a sequence of lengths.
pub open spec fn length_sum(l: Seq<usize>) -> nat
    decreases l.len(),
{
    if l.len() == 0 {
        0
    } else {
        length_sum(l.drop_last()) + l.last() as nat
    }
}

/// The lengths of a list of sentences.
pub open spec fn lengths_of(v: Seq<Seq<char>>) -> Seq<usize> {
    v.map_values(|t: Seq<char>| t.len() as usize)
}

/// The mean of the lengths as a fraction, zero when there are none.
pub open spec fn mean_of(l: Seq<usize>) -> Ratio {
    if l.len() == 0 {
        Ratio { num: 0, den: 1 }
    } else {
        Ratio { num: length_sum(l) as u128, den: l.len() as u128 }
    }
}

proof fn lemma_length_sum_bound(l: Seq<usize>)
    ensures
        length_sum(l) <= l.len() * usize::MAX,
    decreases l.len(),
{
    if l.len() > 0 {
        lemma_length_sum_bound(l.drop_last());
        assert(length_sum(l) <= (l.len() - 1) * usize::MAX + usize::MAX);
        assert((l.len() - 1) * usize::MAX + usize::MAX == l.len() * usize::MAX) by (
        nonlinear_arith);
    }
}

/// Classifies how sentence lengths change from one sentence to the next.
pub fn analyze_tempo_pattern(lengths: &Vec<usize>) -> (r: TempoPattern)
    ensures
        r == tempo_of(lengths@),
{
    let ghost l = lengths@;
    let n = lengths.len();
    if n < 3 {
        return TempoPattern::Steady;
    }
    let mut increasing: usize = 0;
    let mut decreasing: usize = 0;
    let mut i: usize = 1;
    while i < n
        invariant
            l == lengths@,
            n == l.len(),
            1 <= i <= n,
            increasing == rises(l.take(i as int)),
            decreasing == falls(l.take(i as int)),
            increasing <= i,
            decreasing <= i,
        decreases n - i,
    {
        assert(l.take(i as int + 1).drop_last() =~= l.take(i as int));
        if lengths[i] > lengths[i - 1] {
            increasing = increasing + 1;
        } else if lengths[i] < lengths[i - 1] {
            decreasing = decreasing + 1;
        }
        i = i + 1;
    }
    let mut alternating: usize = 0;
    let mut j: usize = 2;
    assert(turns(l.take(2)) == 0);
    while j < n
        invariant
            l == lengths@,
            n == l.len(),
            2 <= j <= n,
            alternating == turns(l.take(j as int)),
            alternating <= j,
        decreases n - j,
    {
        assert(l.take(j as int + 1).drop_last() =~= l.take(j as int));
        let a = lengths[j - 2];
        let b = lengths[j - 1];
        let c = lengths[j];
        if (b > a && c < b) || (b < a && c > b) {
            alternating = alternating + 1;
        }
        j = j + 1;
    }
    assert(l.take(n as int) =~= l);
    let t = (n - 1) as u128;
    if 10 * (alternating as u128) > 6 * t {
        TempoPattern::Alternating
    } else if 10 * (increasing as u128) > 7 * t {
        TempoPattern::Accelerating
    } else if 10 * (decreasing as u128) > 7 * t {
        TempoPattern::Decelerating
    } else if 10 * (increasing as u128 + decreasing as u128) > 8 * t {
        TempoPattern::Varied
    } else {
        TempoPattern::Steady
    }
}

/// The sum of the squares of a sequence of lengths.
pub open spec fn square_sum(l: Seq<usize>) -> nat
    decreases l.len(),
{
    if l.len() == 0 {
        0
    } else {
        square_sum(l.drop_last()) + l.last() as nat * l.last() as nat
    }
}

/// `n * Q - S * S` for `n` lengths with sum `S` and sum of squares `Q`: `n` times
/// the sum of the squared deviations from the mean.
pub open spec fn spread(l: Seq<usize>) -> int {
    l.len() * square_sum(l) - length_sum(l) * length_sum(l)
}

/// The sum of the squared differences between each length and `x`.
pub open spec fn deviation_from(l: Seq<usize>, x: int) -> int
    decreases l.len(),
{
    if l.len() == 0 {
        0
    } else {
        deviation_from(l.drop_last(), x) + (l.last() - x) * (l.last() - x)
    }
}

/// The square of the variation coefficient (standard deviation over mean),
/// `spread / (S * S)`; zero when the lengths add up to zero.
pub open spec fn variation_squared_of(l: Seq<usize>) -> Ratio {
    if length_sum(l) == 0 {
        Ratio { num: 0, den: 1 }
    } else {
        Ratio { num: spread(l) as u128, den: (length_sum(l) * length_sum(l)) as u128 }
    }
}

proof fn lemma_deviation(l: Seq<usize>, x: int)
    ensures
        square_sum(l) - 2 * x * length_sum(l) + l.len() * x * x == deviation_from(l, x),
        deviation_from(l, x) >= 0,
    decreases l.len(),
{
    if l.len() > 0 {
        let t = l.drop_last();
        let y = l.last() as int;
        lemma_deviation(t, x);
        let q = square_sum(t) as int;
        let s = length_sum(t) as int;
        let n = t.len() as int;
        let d = deviation_from(t, x);
        assert(square_sum(l) == q + y * y);
        assert(length_sum(l) == s + y);
        assert(deviation_from(l, x) == d + (y - x) * (y - x));
        let sq = square_sum(l) as int;
        let sm = length_sum(l) as int;
        let ln = l.len() as int;
        assert(sq - 2 * x * sm + ln * x * x == d + (y - x) * (y - x)) by (nonlinear_arith)
            requires
                sq == q + y * y,
                sm == s + y,
                ln == n + 1,
                q - 2 * x * s + n * x * x == d,
        ;
        assert((y - x) * (y - x) >= 0) by (nonlinear_arith);
    } else {
        let ln = l.len() as int;
        let sm = length_sum(l) as int;
        assert(ln * x * x == 0 && 2 * x * sm == 0) by (nonlinear_arith)
            requires
                ln == 0,
                sm == 0,
        ;
    }
}

/// The lengths spread around their mean by a non-negative amount: `n * Q >= S * S`.
pub proof fn law_spread_nonnegative(l: Seq<usize>)
    ensures
        spread(l) >= 0,
    decreases l.len(),
{
    if l.len() > 0 {
        let t = l.drop_last();
        let y = l.last() as int;
        law_spread_nonnegative(t);
        lemma_deviation(t, y);
        let q = square_sum(t) as int;
        let s = length_sum(t) as int;
        let n = t.len() as int;
        let sq = square_sum(l) as int;
        let sm = length_sum(l) as int;
        let ln = l.len() as int;
        assert(square_sum(l) == q + y * y);
        assert(length_sum(l) == s + y);
        assert(ln * sq - sm * sm == (n * q - s * s) + (q - 2 * y * s + n * y * y)) by (
        nonlinear_arith)
            requires
                sq == q + y * y,
                sm == s + y,
                ln == n + 1,
        ;
    }
}

proof fn lemma_square_sum_prefix(l: Seq<usize>, i: int)
    requires
        0 <= i <= l.len(),
    ensures
        square_sum(l.take(i)) <= square_sum(l),
    decreases l.len() - i,
{
    if i < l.len() {
        lemma_square_sum_prefix(l, i + 1);
        assert(l.take(i + 1).drop_last() =~= l.take(i));
    } else {
        assert(l.take(i) =~= l);
    }
}

/// The square of the variation coefficient of the lengths, exactly; `None` where
/// `n * Q` does not fit in 128 bits.
pub fn variation_squared(lengths: &Vec<usize>) -> (r: Option<Ratio>)
    ensures
        r is Some <==> lengths@.len() * square_sum(lengths@) <= u128::MAX,
        r is Some ==> r == Some(variation_squared_of(lengths@)),
{
    let ghost l = lengths@;
    let n = lengths.len();
    let mut sum: u128 = 0;
    let mut squares: u128 = 0;
    let mut i: usize = 0;
    while i < n
        invariant
            l == lengths@,
            n == l.len(),
            i <= n,
            sum == length_sum(l.take(i as int)),
            squares == square_sum(l.take(i as int)),
        decreases n - i,
    {
        assert(l.take(i as int + 1).drop_last() =~= l.take(i as int));
        proof {
            lemma_length_sum_bound(l.take(i as int + 1));
            assert((i + 1) * usize::MAX <= usize::MAX * usize::MAX) by (nonlinear_arith)
                requires
                    i + 1 <= usize::MAX,
            ;
        }
        let x = lengths[i] as u128;
        assert(x * x <= usize::MAX * usize::MAX) by (nonlinear_arith)
            requires
                x <= usize::MAX,
        ;
        match squares.checked_add(x * x) {
            Some(q) => {
                squares = q;
            },
            None => {
                proof {
                    lemma_square_sum_prefix(l, i as int + 1);
                    assert(n * square_sum(l) >= square_sum(l)) by (nonlinear_arith)
                        requires
                            n >= 1,
                    ;
                }
                return None;
            },
        }
        sum = sum + x;
        i = i + 1;
    }
    assert(l.take(n as int) =~= l);
    let total = match (n as u128).checked_mul(squares) {
        Some(t) => t,
        None => {
            return None;
        },
    };
    proof {
        law_spread_nonnegative(l);
    }
    if sum == 0 {
        return Some(Ratio { num: 0, den: 1 });
    }
    let square_of_sum = sum * sum;
    Some(Ratio { num: total - square_of_sum, den: square_of_sum })
}

/// The rhythm metrics of a sequence of sentence lengths.
pub fn rhythm_of_lengths(lengths: Vec<usize>) -> (r: RhythmMetrics)
    ensures
        r.sentence_lengths@ == lengths@,
        r.avg_sentence_length == mean_of(lengths@),
        r.variation_squared is Some <==> lengths@.len() * square_sum(lengths@) <= u128::MAX,
        r.variation_squared is Some ==> r.variation_squared == Some(variation_squared_of(lengths@)),
        r.tempo_pattern == tempo_of(lengths@),
{
    let ghost l = lengths@;
    let n = lengths.len();
    let mut sum: u128 = 0;
    let mut i: usize = 0;
    while i < n
        invariant
            l == lengths@,
            n == l.len(),
            i <= n,
            sum == length_sum(l.take(i as int)),
        decreases n - i,
    {
        assert(l.take(i as int + 1).drop_last() =~= l.take(i as int));
        proof {
            lemma_length_sum_bound(l.take(i as int + 1));
            assert((i + 1) * usize::MAX <= usize::MAX * usize::MAX) by (nonlinear_arith)
                requires
                    i + 1 <= usize::MAX,
            ;
        }
        sum = sum + lengths[i] as u128;
        i = i + 1;
    }
    assert(l.take(n as int) =~= l);
    let avg_sentence_length = Ratio::of(sum, n as u128);
    let tempo_pattern = analyze_tempo_pattern(&lengths);
    let variation_squared = variation_squared(&lengths);
    RhythmMetrics { sentence_lengths: lengths, avg_sentence_length, variation_squared, tempo_pattern }
}

/// Computes sentence-rhythm statistics.
pub struct RhythmAnalyzer;

impl RhythmAnalyzer {
    /// The length of each sentence in characters, their mean (zero when there is
    /// no sentence) and the tempo they make.
    pub fn analyze(sentences: &Vec<String>) -> (r: RhythmMetrics)
        ensures
            r.sentence_lengths@ == lengths_of(string_views(sentences@)),
            r.avg_sentence_length == mean_of(lengths_of(string_views(sentences@))),
            r.variation_squared is Some <==> lengths_of(string_views(sentences@)).len()
                * square_sum(lengths_of(string_views(sentences@))) <= u128::MAX,
            r.variation_squared is Some ==> r.variation_squared == Some(
                variation_squared_of(lengths_of(string_views(sentences@))),
            ),
            r.tempo_pattern == tempo_of(lengths_of(string_views(sentences@))),
    {
        let mut lengths: Vec<usize> = Vec::new();
        let mut i: usize = 0;
        while i < sentences.len()
            invariant
                i <= sentences@.len(),
                lengths@ == lengths_of(string_views(sentences@)).take(i as int),
            decreases sentences@.len() - i,
        {
            let len = sentences[i].as_str().unicode_len();
            lengths.push(len);
            i = i + 1;
            assert(lengths@ =~= lengths_of(string_views(sentences@)).take(i as int));
        }
        assert(lengths@ =~= lengths_of(string_views(sentences@)));
        rhythm_of_lengths(lengths)
    }
}

} // verus!
