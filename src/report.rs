use vstd::prelude::*;

use crate::models::{Ratio, TextProfile};

verus! {

/// How a profile is rendered.
#[derive(Clone, Copy, Debug, PartialEq, Eq, Structural)]
pub enum OutputFormat {
    Terminal,
    Json,
    Csv,
}

/// Renders profiles in the chosen format.
#[derive(Clone, Copy, Debug, PartialEq, Eq, Structural)]
pub struct Reporter {
    pub format: OutputFormat,
    pub verbose: bool,
    pub chart: bool,
}

/// The renderer that a format is served by: CSV is not implemented and falls
/// back to JSON.
pub open spec fn renderer_for(format: OutputFormat) -> OutputFormat {
    match format {
        OutputFormat::Csv => OutputFormat::Json,
        f => f,
    }
}

impl Reporter {
    /// A reporter for the given format and options.
    pub fn new(format: OutputFormat, verbose: bool, chart: bool) -> (r: Reporter)
        ensures
            r == (Reporter { format, verbose, chart }),
    {
        Reporter { format, verbose, chart }
    }

    /// The renderer that serves this reporter's format.
    pub fn renderer(&self) -> (r: OutputFormat)
        ensures
            r == renderer_for(self.format),
    {
        match self.format {
            OutputFormat::Csv => OutputFormat::Json,
            OutputFormat::Json => OutputFormat::Json,
            OutputFormat::Terminal => OutputFormat::Terminal,
        }
    }

    /// Whether the requested format is replaced by another one, which the user is
    /// warned about.
    pub fn falls_back(&self) -> (r: bool)
        ensures
            r == (renderer_for(self.format) != self.format),
    {
        match self.format {
            OutputFormat::Csv => true,
            _ => false,
        }
    }
}

/// Renders profiles as JSON.
#[derive(Clone, Copy, Debug, PartialEq, Eq, Structural)]
pub struct JsonReporter;

impl JsonReporter {
    /// The JSON renderer.
    pub fn new() -> (r: JsonReporter)
        ensures
            r == JsonReporter,
    {
        JsonReporter
    }
}

/// Draws charts of a profile.
pub struct ChartGenerator;

impl ChartGenerator {
    /// A sketch of how sentence lengths rise and fall; not drawn from the profile yet.
    pub fn generate_tempo_chart(_profile: &TextProfile) -> (r: &'static str)
        ensures
            r@ == "▁▃▇▃▁▇▃▁"@,
    {
        "▁▃▇▃▁▇▃▁"
    }

    /// A chart of the distribution of sentence lengths; not drawn yet, so empty.
    pub fn generate_distribution_chart(_profile: &TextProfile) -> (r: String)
        ensures
            r@.len() == 0,
    {
        String::new()
    }
}

/// The whole percentage of a fraction, rounded down.
pub open spec fn percent_spec(r: Ratio) -> int {
    (100 * r.num) as int / r.den as int
}

/// The whole percentage of a fraction of at most one, rounded down.
pub fn percent_of(r: Ratio) -> (p: usize)
    requires
        r.wf(),
        r.at_most_one(),
        r.den <= usize::MAX,
    ensures
        p == percent_spec(r),
        p <= 100,
{
    assert((100 * r.num) as int / r.den as int <= 100) by (nonlinear_arith)
        requires
            r.num <= r.den,
            r.den > 0,
    ;
    ((100 * r.num) / r.den) as usize
}

/// The width of a percentage bar, in cells.
pub const BAR_WIDTH: usize = 20;

/// How many cells of a bar are filled for a percentage, at most the whole bar,
/// and how many stay empty.
pub fn bar_cells(percent: usize) -> (r: (usize, usize))
    ensures
        r.0 == if percent * 20 / 100 <= 20 {
            percent * 20 / 100
        } else {
            20
        },
        r.0 + r.1 == BAR_WIDTH,
{
    let filled = if percent >= 100 {
        BAR_WIDTH
    } else {
        percent * BAR_WIDTH / 100
    };
    (filled, BAR_WIDTH - filled)
}

/// The share of dialogue and of narrative as whole percentages; the second is
/// what the first leaves of a hundred.
pub fn style_percentages(dialogue_ratio: Ratio) -> (r: (usize, usize))
    requires
        dialogue_ratio.wf(),
        dialogue_ratio.at_most_one(),
        dialogue_ratio.den <= usize::MAX,
    ensures
        r.0 == percent_spec(dialogue_ratio),
        r.0 + r.1 == 100,
{
    let d = percent_of(dialogue_ratio);
    (d, 100 - d)
}

/// How many sentences fall into each length range.
#[derive(Clone, Copy, Debug, PartialEq, Eq, Structural)]
pub struct LengthBuckets {
    /// Lengths 1 to 20.
    pub short: usize,
    /// Lengths 21 to 40.
    pub medium: usize,
    /// Lengths 41 to 60.
    pub long: usize,
    /// Lengths above 60, and empty sentences.
    pub very_long: usize,
}

/// The bucket of a sentence length: 0 for 1 to 20, 1 for 21 to 40, 2 for 41 to
/// 60, 3 otherwise.
pub open spec fn bucket_of(len: usize) -> int {
    if 1 <= len <= 20 {
        0
    } else if 21 <= len <= 40 {
        1
    } else if 41 <= len <= 60 {
        2
    } else {
        3
    }
}

/// How many of the lengths fall into bucket `b`.
pub open spec fn bucket_count(l: Seq<usize>, b: int) -> nat
    decreases l.len(),
{
    if l.len() == 0 {
        0
    } else {
        bucket_count(l.drop_last(), b) + if bucket_of(l.last()) == b {
            1nat
        } else {
            0nat
        }
    }
}

proof fn lemma_buckets_sum(l: Seq<usize>)
    ensures
        bucket_count(l, 0) + bucket_count(l, 1) + bucket_count(l, 2) + bucket_count(l, 3) == l.len(),
    decreases l.len(),
{
    if l.len() > 0 {
        lemma_buckets_sum(l.drop_last());
    }
}

/// Sorts sentence lengths into the four ranges of the rhythm histogram.
pub fn length_buckets(lengths: &Vec<usize>) -> (r: LengthBuckets)
    ensures
        r.short == bucket_count(lengths@, 0),
        r.medium == bucket_count(lengths@, 1),
        r.long == bucket_count(lengths@, 2),
        r.very_long == bucket_count(lengths@, 3),
        r.short + r.medium + r.long + r.very_long == lengths@.len(),
{
    let ghost l = lengths@;
    let mut b = LengthBuckets { short: 0, medium: 0, long: 0, very_long: 0 };
    let mut i: usize = 0;
    while i < lengths.len()
        invariant
            l == lengths@,
            i <= l.len(),
            b.short == bucket_count(l.take(i as int), 0),
            b.medium == bucket_count(l.take(i as int), 1),
            b.long == bucket_count(l.take(i as int), 2),
            b.very_long == bucket_count(l.take(i as int), 3),
        decreases l.len() - i,
    {
        let ghost t = l.take(i as int + 1);
        assert(t.drop_last() =~= l.take(i as int));
        proof {
            lemma_buckets_sum(t);
        }
        let len = lengths[i];
        if 1 <= len && len <= 20 {
            b.short = b.short + 1;
        } else if 21 <= len && len <= 40 {
            b.medium = b.medium + 1;
        } else if 41 <= len && len <= 60 {
            b.long = b.long + 1;
        } else {
            b.very_long = b.very_long + 1;
        }
        i = i + 1;
    }
    assert(l.take(i as int) =~= l);
    proof {
        lemma_buckets_sum(l);
    }
    b
}

/// The length of a histogram bar: one cell per sentence, at most twenty.
pub fn histogram_cells(count: usize) -> (r: usize)
    ensures
        r == if count <= 20 {
            count
        } else {
            20
        },
{
    if count <= 20 {
        count
    } else {
        20
    }
}

/// Which way a difference points.
#[derive(Clone, Copy, Debug, PartialEq, Eq, Structural)]
pub enum DiffSign {
    Higher,
    Lower,
    Even,
}

/// Which way `a - b` points.
pub fn diff_sign(a: usize, b: usize) -> (r: DiffSign)
    ensures
        a > b ==> r == DiffSign::Higher,
        a < b ==> r == DiffSign::Lower,
        a == b ==> r == DiffSign::Even,
{
    if a > b {
        DiffSign::Higher
    } else if a < b {
        DiffSign::Lower
    } else {
        DiffSign::Even
    }
}

/// Which way `a - b` points once differences of at most `1 / scale` count as even:
/// higher when `scale * (a - b) > 1`, lower when `scale * (b - a) > 1`.
pub open spec fn ratio_band(a: Ratio, b: Ratio, scale: int) -> DiffSign {
    let x = a.num * b.den - b.num * a.den;
    let d = a.den * b.den;
    if scale * x > d {
        DiffSign::Higher
    } else if scale * (-x) > d {
        DiffSign::Lower
    } else {
        DiffSign::Even
    }
}

proof fn lemma_scaled_above(scale: int, y: int, d: int)
    requires
        scale > 0,
        d >= 0,
    ensures
        scale * y > d <==> y > d / scale,
{
    assert(scale * y > d <==> y > d / scale) by (nonlinear_arith)
        requires
            scale > 0,
            d >= 0,
    ;
}

/// Which way the difference of two fractions points, when differences of at most
/// `1 / scale` count as even: a scale of 200 compares percentages against half a
/// point, a scale of 2 compares values against a half.
pub fn diff_band(a: Ratio, b: Ratio, scale: u128) -> (r: DiffSign)
    requires
        a.wf(),
        b.wf(),
        scale > 0,
        a.num <= usize::MAX,
        a.den <= usize::MAX,
        b.num <= usize::MAX,
        b.den <= usize::MAX,
    ensures
        r == ratio_band(a, b, scale as int),
{
    proof {
        assert(a.num * b.den <= usize::MAX * usize::MAX) by (nonlinear_arith)
            requires
                a.num <= usize::MAX,
                b.den <= usize::MAX,
        ;
        assert(b.num * a.den <= usize::MAX * usize::MAX) by (nonlinear_arith)
            requires
                b.num <= usize::MAX,
                a.den <= usize::MAX,
        ;
        assert(a.den * b.den <= usize::MAX * usize::MAX) by (nonlinear_arith)
            requires
                b.den <= usize::MAX,
                a.den <= usize::MAX,
        ;
    }
    let p = a.num * b.den;
    let q = b.num * a.den;
    let d = a.den * b.den;
    let limit = d / scale;
    proof {
        lemma_scaled_above(scale as int, p - q, d as int);
        lemma_scaled_above(scale as int, q - p, d as int);
    }
    if p > q {
        if p - q > limit {
            DiffSign::Higher
        } else {
            DiffSign::Even
        }
    } else if q - p > limit {
        DiffSign::Lower
    } else {
        DiffSign::Even
    }
}

} // verus!
