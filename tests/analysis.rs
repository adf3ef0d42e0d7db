use text_profile::analyzer::{analyze, normalize_text};
use text_profile::brackets::parse_dialogues;
use text_profile::dialogue::DialogueAnalyzer;
use text_profile::models::{CharTypeDistribution, SegmentType, TempoPattern};
use text_profile::rhythm::{
    analyze_tempo_pattern, rhythm_of_lengths, variation_squared, RhythmAnalyzer,
};
use text_profile::sentence::SentenceAnalyzer;
use text_profile::stats::BasicStatsAnalyzer;

fn variation_coefficient(lengths: &[usize]) -> f64 {
    let n = lengths.len() as f64;
    let mean = lengths.iter().sum::<usize>() as f64 / n;
    let var = lengths.iter().map(|&l| (l as f64 - mean) * (l as f64 - mean)).sum::<f64>() / n;
    var.sqrt() / mean
}

#[test]
fn sentences_split_outside_quotes() {
    let s = SentenceAnalyzer::analyze("今日は晴れ。「元気？　はい。」と聞いた。明日も");
    assert_eq!(s, vec!["今日は晴れ。", "「元気？　はい。」と聞いた。", "明日も"]);
}

#[test]
fn sentences_are_trimmed_and_never_empty() {
    let s = SentenceAnalyzer::analyze("  一つ目。 \n 二つ目！  。？");
    assert_eq!(s, vec!["一つ目。", "二つ目！", "。", "？"]);
}

#[test]
fn sentence_without_end_mark_is_whole_text() {
    let s = SentenceAnalyzer::analyze("  終わりのない文  ");
    assert_eq!(s, vec!["終わりのない文"]);
}

#[test]
fn blank_text_has_no_sentences() {
    assert!(SentenceAnalyzer::analyze(" \n\t　").is_empty());
    assert!(SentenceAnalyzer::analyze("").is_empty());
}

#[test]
fn non_blank_text_has_a_sentence() {
    for t in ["a", "。", "「", " x ", "「未完の会話。"] {
        assert!(!SentenceAnalyzer::analyze(t).is_empty(), "{}", t);
    }
}

#[test]
fn sentence_flag_does_not_nest() {
    let s = SentenceAnalyzer::analyze("「外『内』。外」。");
    assert_eq!(s, vec!["「外『内』。", "外」。"]);
}

#[test]
fn dialogue_scenario_with_narrative_remainder() {
    let segs = parse_dialogues("「こんにちは」と彼は言った。");
    assert_eq!(segs.len(), 2);
    assert_eq!(segs[0].segment_type, SegmentType::Dialogue);
    assert_eq!(segs[0].content, "「こんにちは」");
    assert_eq!((segs[0].start, segs[0].end), (0, 7));
    assert_eq!(segs[1].segment_type, SegmentType::Narrative);
    assert_eq!(segs[1].content, "と彼は言った。");
    assert_eq!((segs[1].start, segs[1].end), (7, 14));
    let d = DialogueAnalyzer::analyze("「こんにちは」と彼は言った。");
    assert_eq!(d.dialogue_chars, 7);
    assert_eq!(d.narrative_chars, 7);
    assert_eq!(d.dialogue_count, 1);
    assert_eq!((d.dialogue_ratio.num, d.dialogue_ratio.den), (7, 14));
}

#[test]
fn nested_dialogue_is_one_segment() {
    let segs = parse_dialogues("「外側『内側』外側」");
    assert_eq!(segs.len(), 1);
    assert_eq!(segs[0].segment_type, SegmentType::Dialogue);
    assert_eq!(segs[0].content, "「外側『内側』外側」");
    assert_eq!((segs[0].start, segs[0].end), (0, 10));
}

#[test]
fn same_kind_nesting_is_counted() {
    let segs = parse_dialogues("前「a「b」c」後");
    let kinds: Vec<SegmentType> = segs.iter().map(|s| s.segment_type).collect();
    assert_eq!(kinds, vec![SegmentType::Narrative, SegmentType::Dialogue, SegmentType::Narrative]);
    assert_eq!(segs[1].content, "「a「b」c」");
    assert_eq!(segs[2].content, "後");
}

#[test]
fn unclosed_bracket_is_skipped() {
    let segs = parse_dialogues("あ「いう");
    assert_eq!(segs.len(), 2);
    assert_eq!(segs[0].content, "あ");
    assert_eq!(segs[1].content, "いう");
    assert_eq!((segs[1].start, segs[1].end), (2, 4));
    let d = DialogueAnalyzer::analyze("あ「いう");
    assert_eq!(d.dialogue_chars + d.narrative_chars, 4);
    assert_eq!(d.dialogue_count, 0);
}

#[test]
fn dialogue_and_narrative_add_up() {
    for t in ["", "「」", "地の文だけ", "「a」「b」c『d』", "『x「y』z」"] {
        let d = DialogueAnalyzer::analyze(t);
        assert_eq!(d.dialogue_chars + d.narrative_chars, t.chars().count());
        assert!(d.dialogue_ratio.num <= d.dialogue_ratio.den);
    }
}

#[test]
fn char_classes_partition_the_text() {
    let text = "ひらがなカタカナー漢字々abcXYZ019０９。、「」…—★é \n\t　";
    let b = BasicStatsAnalyzer::analyze(text);
    let c = b.char_types;
    assert_eq!(c.hiragana, 4);
    assert_eq!(c.katakana, 5);
    assert_eq!(c.kanji, 3);
    assert_eq!(c.alphabet, 6);
    assert_eq!(c.number, 5);
    assert_eq!(c.punctuation, 6);
    assert_eq!(c.other, 2);
    assert_eq!(c.total() + 4, b.total_chars);
}

#[test]
fn char_type_total_and_ratio() {
    let c = CharTypeDistribution {
        hiragana: 3,
        katakana: 1,
        kanji: 2,
        alphabet: 0,
        number: 0,
        punctuation: 1,
        other: 1,
    };
    assert_eq!(c.total(), 8);
    let r = c.hiragana_ratio();
    assert_eq!((r.num, r.den), (3, 8));
    let empty = CharTypeDistribution {
        hiragana: 0,
        katakana: 0,
        kanji: 0,
        alphabet: 0,
        number: 0,
        punctuation: 0,
        other: 0,
    };
    assert_eq!(empty.hiragana_ratio().num, 0);
}

#[test]
fn basic_stats_counts() {
    let b = BasicStatsAnalyzer::analyze("一。二！\n\n三？\n\n  \n\n四");
    assert_eq!(b.total_chars, 15);
    assert_eq!(b.total_sentences, 3);
    assert_eq!(b.total_paragraphs, 3);
    let none = BasicStatsAnalyzer::analyze("");
    assert_eq!(none.total_sentences, 1);
    assert_eq!(none.total_paragraphs, 1);
}

#[test]
fn alternating_lengths() {
    let lengths = vec![10, 50, 10, 50, 10];
    assert_eq!(analyze_tempo_pattern(&lengths), TempoPattern::Alternating);
    assert!(variation_coefficient(&lengths) > 0.5);
    let v = variation_squared(&lengths).unwrap();
    assert_eq!((v.num, v.den), (9600, 16900));
    // the coefficient is above one half exactly when its square is above a quarter
    assert!(4 * v.num > v.den);
    let m = rhythm_of_lengths(lengths);
    assert_eq!((m.avg_sentence_length.num, m.avg_sentence_length.den), (130, 5));
    assert_eq!(m.variation_squared, Some(v));
}

#[test]
fn tempo_classes() {
    assert_eq!(analyze_tempo_pattern(&vec![5, 9]), TempoPattern::Steady);
    assert_eq!(analyze_tempo_pattern(&vec![1, 2, 3, 4, 5]), TempoPattern::Accelerating);
    assert_eq!(analyze_tempo_pattern(&vec![5, 4, 3, 2, 1]), TempoPattern::Decelerating);
    assert_eq!(analyze_tempo_pattern(&vec![7, 7, 7, 7]), TempoPattern::Steady);
    assert_eq!(analyze_tempo_pattern(&vec![1, 2, 3, 2, 1]), TempoPattern::Varied);
    // three turns over five transitions is exactly 0.6, which is not above it
    assert_eq!(analyze_tempo_pattern(&vec![1, 2, 1, 2, 1, 1]), TempoPattern::Steady);
}

#[test]
fn rhythm_from_sentences() {
    let sentences = vec!["あいう".to_string(), "かきくけこ".to_string(), "さ".to_string()];
    let m = RhythmAnalyzer::analyze(&sentences);
    assert_eq!(m.sentence_lengths, vec![3, 5, 1]);
    assert_eq!((m.avg_sentence_length.num, m.avg_sentence_length.den), (9, 3));
    assert_eq!(m.tempo_pattern, TempoPattern::Varied);
    let empty = RhythmAnalyzer::analyze(&vec![]);
    assert!(empty.sentence_lengths.is_empty());
    assert_eq!(empty.avg_sentence_length.num, 0);
    assert_eq!(empty.tempo_pattern, TempoPattern::Steady);
}

#[test]
fn empty_text_profile() {
    let p = analyze("");
    assert_eq!(p.basic_stats.total_chars, 0);
    assert_eq!(p.basic_stats.total_sentences, 1);
    assert_eq!(p.dialogue_stats.dialogue_ratio.num, 0);
    assert_eq!(p.rhythm_metrics.tempo_pattern, TempoPattern::Steady);
    assert!(p.readability.score.den > 0);
    // no hiragana, 30 points for a mean of zero, 10 for a density of 100
    assert_eq!(p.readability.score.num, 40 * p.readability.score.den);
}

#[test]
fn hiragana_text_scores_full() {
    let sentence = "あいうえおかきくけこさしすせそたちつてとなにぬねのはひふへ。";
    assert_eq!(sentence.chars().count(), 30);
    let text = sentence.repeat(4);
    let p = analyze(&text);
    assert_eq!(p.basic_stats.total_sentences, 4);
    assert_eq!(p.readability.score.num, 100 * p.readability.score.den);
    let d = p.readability.factors.punctuation_density;
    assert_eq!((d.num, d.den), (400, 120));
}

#[test]
fn readability_by_parts() {
    // mean 60 → 10 points, no hiragana, density 1/60*100 outside (2, 5) → 10 points
    let text = "漢".repeat(59) + "。";
    let p = analyze(&text);
    assert_eq!(p.readability.score.num, 20 * p.readability.score.den);
    // mean 50 → 20 points; 24% hiragana → 48 points; density exactly 2 → 10 points
    let text2 = "あ".repeat(12) + &"漢".repeat(37) + "。";
    let p2 = analyze(&text2);
    let s = p2.readability.score;
    assert_eq!(s.den, 50);
    assert_eq!(s.num, 78 * s.den);
}

#[test]
fn profile_is_deterministic() {
    let text = "「やあ」と言った。\r\n彼は笑った！\r\n\r\nそれから、帰った。";
    let a = analyze(text);
    let b = analyze(text);
    assert_eq!(format!("{:?}", a), format!("{:?}", b));
}

#[test]
fn line_endings_are_normalized() {
    assert_eq!(normalize_text("a\r\nb\rc\n\r\r\nd"), "a\nb\nc\n\n\nd");
    let p = analyze("一。\r\n\r\n二。");
    assert_eq!(p.basic_stats.total_chars, 6);
    assert_eq!(p.basic_stats.total_paragraphs, 2);
}

#[test]
fn trimming_agrees_with_std() {
    for t in ["\u{3000}\u{a0}x\u{2028}", "\u{200b}x\u{feff}", "\u{85} y \u{1680}", "\u{180e}z"] {
        let s = SentenceAnalyzer::analyze(t);
        assert_eq!(s, vec![t.trim().to_string()], "{:?}", t);
    }
}

#[test]
fn variation_edge_cases() {
    let same = variation_squared(&vec![7, 7, 7]).unwrap();
    assert_eq!(same.num, 0);
    let none = variation_squared(&vec![]).unwrap();
    assert_eq!((none.num, none.den), (0, 1));
    let zeros = variation_squared(&vec![0, 0]).unwrap();
    assert_eq!((zeros.num, zeros.den), (0, 1));
    let two = variation_squared(&vec![1, 3]).unwrap();
    assert_eq!((two.num, two.den), (4, 16));
    assert!(variation_squared(&vec![usize::MAX, usize::MAX, usize::MAX]).is_none());
}

#[test]
fn sentences_keep_every_non_blank_char() {
    for t in ["  一。 二！\n「三。」四？ 五", "\u{3000}a。\tb", "。。。", "「未完"] {
        let joined: String = SentenceAnalyzer::analyze(t).concat();
        let strip = |x: &str| x.chars().filter(|c| !c.is_whitespace()).collect::<String>();
        assert_eq!(strip(&joined), strip(t), "{:?}", t);
    }
}

#[test]
fn sentences_stand_in_order_in_text() {
    let t = " 一つ。 「二つ？」と。\n三つ ";
    let chars: Vec<char> = t.chars().collect();
    let mut from = 0;
    for s in SentenceAnalyzer::analyze(t) {
        assert_eq!(s.trim(), s);
        let sc: Vec<char> = s.chars().collect();
        let at = (from..=chars.len() - sc.len())
            .find(|&i| chars[i..i + sc.len()] == sc[..])
            .expect("sentence not found after the previous one");
        from = at + sc.len();
    }
}
