use text_profile::brackets::{dialogue_nested_nom, dialogue_nom, QuoteError};
use text_profile::models::{Ratio, TextProfile};
use text_profile::preprocess::{preprocess_markdown, remove_sketch_metadata, split_lines};
use text_profile::report::{
    bar_cells, diff_band, diff_sign, histogram_cells, length_buckets, percent_of, style_percentages,
    ChartGenerator, DiffSign, JsonReporter, OutputFormat, Reporter,
};
use text_profile::site::{
    assemble_page_text, detect_markdown, extract_kakuyomu_text, extract_narou_text,
    extract_text_by_selector, get_site_config, preprocess_text, strip_html_tags, ExtractError,
    Site,
};
use text_profile::text::{chars_of, string_of};

fn lines(v: &[Vec<char>]) -> Vec<String> {
    v.iter().map(|l| l.iter().collect()).collect()
}

#[test]
fn lines_follow_std() {
    for t in ["", "a", "a\n", "a\r\nb", "\n", "a\n\nb\r", "x\r\n\r\ny\n"] {
        let got = lines(&split_lines(&chars_of(t)));
        let want: Vec<String> = t.lines().map(|l| l.to_string()).collect();
        assert_eq!(got, want, "{:?}", t);
    }
}

#[test]
fn markdown_headers_and_breaks() {
    let md = "# 第一章\n\n本文一。\n  ## 小見出し\n\n\n本文二。\n\n";
    assert_eq!(preprocess_markdown(md, false), "\n本文一。\n\n本文二。\n");
}

#[test]
fn sketch_metadata_is_removed() {
    let md = "# タイトル\n**ログライン**\n要約の行\n---\n\n本文。\n\n続き。\n**作者ノート**\nメモ";
    assert_eq!(preprocess_markdown(md, true), "\n本文。\n続き。");
    let sep = split_lines(&chars_of("---\n\n本文"));
    assert_eq!(lines(&remove_sketch_metadata(&sep)), vec!["", "本文"]);
    let ls = split_lines(&chars_of("\n\n**Author's Note** x\nafter"));
    assert!(remove_sketch_metadata(&ls).is_empty());
    let block = split_lines(&chars_of("**ログライン**\n要約の一行\n\n要約の二行\n---"));
    assert!(remove_sketch_metadata(&block).is_empty());
    let open_block = split_lines(&chars_of("**ログライン**\n要約\n**作者ノート**"));
    assert!(remove_sketch_metadata(&open_block).is_empty());
    let ls2 = split_lines(&chars_of("  \n本文\n  ---  \n\n次"));
    assert_eq!(lines(&remove_sketch_metadata(&ls2)), vec!["本文", "", "次"]);
}

#[test]
fn plain_text_is_kept() {
    assert_eq!(preprocess_text("# a\nb", false, false), "# a\nb");
    assert_eq!(preprocess_text("# a\nb", true, false), "b");
    assert!(detect_markdown("x\n# 見出し"));
    assert!(detect_markdown("## 見出し"));
    assert!(!detect_markdown("#見出し"));
}

#[test]
fn html_tags_are_stripped() {
    assert_eq!(strip_html_tags("<p>本文<ruby>漢<rt>かん</rt></ruby></p>"), "本文漢かん");
    assert_eq!(strip_html_tags("a > b < c"), "a  b ");
    assert_eq!(strip_html_tags(""), "");
}

#[test]
fn page_text_from_paragraphs() {
    let frags = vec![
        "一行目<br />二行目".to_string(),
        "<br />".to_string(),
        "  ".to_string(),
        "<span>三</span>".to_string(),
    ];
    assert_eq!(assemble_page_text(&frags), Some("一行目\n二行目\n三\n".to_string()));
    assert_eq!(assemble_page_text(&vec!["<br />".to_string()]), None);
    assert_eq!(assemble_page_text(&vec![]), None);
}

#[test]
fn sites_by_domain() {
    assert_eq!(get_site_config("https://ncode.syosetu.com/n0000a/1/"), Some(Site::Narou));
    assert_eq!(get_site_config("https://kakuyomu.jp/works/1/episodes/2"), Some(Site::Kakuyomu));
    assert_eq!(get_site_config("https://example.com/"), None);
    assert_eq!(Site::Narou.selector(), "div.js-novel-text.p-novel__text p");
    assert_eq!(Site::Kakuyomu.domain(), "kakuyomu.jp");
    assert_eq!(Site::Kakuyomu.name(), "カクヨム");
}

#[test]
fn flat_quote_parser() {
    assert_eq!(dialogue_nom("「やあ」と言った"), Ok(("と言った", "やあ")));
    assert_eq!(dialogue_nom("『本』の話"), Ok(("の話", "本")));
    assert_eq!(dialogue_nom("「外『内』」残り"), Ok(("残り", "外『内』")));
    assert_eq!(dialogue_nom("「a「b」c」"), Ok(("c」", "a「b")));
    assert_eq!(dialogue_nom("地の文"), Err(QuoteError::NoOpening));
    assert_eq!(dialogue_nom("「閉じない"), Err(QuoteError::Unclosed));
}

#[test]
fn nested_quote_parser() {
    assert_eq!(
        dialogue_nested_nom("「外『内」側』外」後"),
        Ok(("後", "「外『内」側』外」".to_string()))
    );
    assert_eq!(dialogue_nested_nom("「」"), Ok(("", "「」".to_string())));
    assert_eq!(dialogue_nested_nom("『a』"), Err(QuoteError::NoOpening));
    assert_eq!(dialogue_nested_nom("「a『b」"), Err(QuoteError::Unclosed));
    assert_eq!(dialogue_nested_nom("「a』b」"), Err(QuoteError::Unclosed));
    assert_eq!(dialogue_nested_nom("「abc"), Err(QuoteError::Unclosed));
}

#[test]
fn string_building() {
    let c = chars_of("あいうえお");
    assert_eq!(string_of(&c, 1, 4), "いうえ");
    assert_eq!(string_of(&c, 2, 2), "");
}

#[test]
fn percentages_and_bars() {
    assert_eq!(percent_of(Ratio { num: 29, den: 100 }), 29);
    assert_eq!(percent_of(Ratio { num: 1, den: 3 }), 33);
    assert_eq!(percent_of(Ratio { num: 5, den: 5 }), 100);
    assert_eq!(style_percentages(Ratio { num: 7, den: 15 }), (46, 54));
    assert_eq!(bar_cells(46), (9, 11));
    assert_eq!(bar_cells(100), (20, 0));
    assert_eq!(bar_cells(0), (0, 20));
    assert_eq!(bar_cells(250), (20, 0));
    assert_eq!(bar_cells(usize::MAX), (20, 0));
    assert_eq!(histogram_cells(3), 3);
    assert_eq!(histogram_cells(35), 20);
}

#[test]
fn length_histogram() {
    let b = length_buckets(&vec![0, 1, 20, 21, 40, 41, 60, 61, 500]);
    assert_eq!((b.short, b.medium, b.long, b.very_long), (2, 2, 2, 3));
}

#[test]
fn diff_directions() {
    assert_eq!(diff_sign(10, 3), DiffSign::Higher);
    assert_eq!(diff_sign(3, 10), DiffSign::Lower);
    assert_eq!(diff_sign(4, 4), DiffSign::Even);
}

#[test]
fn csv_falls_back_to_json() {
    let r = Reporter::new(OutputFormat::Csv, true, false);
    assert_eq!(r.renderer(), OutputFormat::Json);
    assert!(r.falls_back());
    let t = Reporter::new(OutputFormat::Terminal, false, true);
    assert_eq!(t.renderer(), OutputFormat::Terminal);
    assert!(!t.falls_back());
    assert!(t.chart && !t.verbose);
    assert!(!Reporter::new(OutputFormat::Json, false, false).falls_back());
    assert_eq!(JsonReporter::new(), JsonReporter);
}

#[test]
fn chart_placeholders() {
    let p: TextProfile = text_profile::analyzer::analyze("あ。");
    assert_eq!(ChartGenerator::generate_tempo_chart(&p), "▁▃▇▃▁▇▃▁");
    assert_eq!(ChartGenerator::generate_distribution_chart(&p), "");
}

#[test]
fn page_text_by_selector() {
    let html = "<html><body><div class=\"js-novel-text p-novel__text\">\
        <p>一行目<br>続き</p><p> </p><p><ruby>二<rt>に</rt></ruby>行目</p></div>\
        <p>枠外</p></body></html>";
    assert_eq!(extract_narou_text(html), Ok("一行目続き\n二に行目\n".to_string()));
    assert_eq!(extract_kakuyomu_text(html), Err(ExtractError::NoText));
    assert_eq!(
        extract_text_by_selector(html, "body > p"),
        Ok("枠外\n".to_string())
    );
    assert_eq!(extract_text_by_selector(html, "p[["), Err(ExtractError::BadSelector));
}

#[test]
fn fraction_difference_bands() {
    let r = |num: u128, den: u128| Ratio { num, den };
    // percentages: 50.0% against 49.6% is within half a point
    assert_eq!(diff_band(r(500, 1000), r(496, 1000), 200), DiffSign::Even);
    assert_eq!(diff_band(r(500, 1000), r(494, 1000), 200), DiffSign::Higher);
    assert_eq!(diff_band(r(494, 1000), r(500, 1000), 200), DiffSign::Lower);
    // exactly half a point is not above it
    assert_eq!(diff_band(r(505, 1000), r(500, 1000), 200), DiffSign::Even);
    // plain values against a half
    assert_eq!(diff_band(r(31, 2), r(15, 1), 2), DiffSign::Even);
    assert_eq!(diff_band(r(16, 1), r(15, 1), 2), DiffSign::Higher);
    assert_eq!(diff_band(r(14, 1), r(29, 2), 2), DiffSign::Even);
    assert_eq!(diff_band(r(14, 1), r(15, 1), 2), DiffSign::Lower);
}

#[test]
fn extraction_fails_only_for_bad_selectors() {
    assert_eq!(extract_text_by_selector("<p>x</p>", "p"), Ok("x\n".to_string()));
    assert_eq!(extract_text_by_selector("<p> </p>", "p"), Err(ExtractError::NoText));
    assert_eq!(extract_text_by_selector("", "::"), Err(ExtractError::BadSelector));
}
