use vstd::prelude::*;

use crate::preprocess::{markdown_body, preprocess_markdown};
use crate::sentence::string_views;
use crate::text::{chars_of, string_of, trim_bounds, trim_seq};

verus! {

/// Whether `needle` occurs in `hay` at position `i`.
pub open spec fn occurs_at(hay: Seq<char>, needle: Seq<char>, i: int) -> bool {
    0 <= i && i + needle.len() <= hay.len() && hay.subrange(i, i + needle.len()) == needle
}

/// Whether `needle` occurs somewhere in `hay`.
pub open spec fn contains_seq(hay: Seq<char>, needle: Seq<char>) -> bool {
    exists|i: int| occurs_at(hay, needle, i)
}

/// Whether `needle` occurs in `hay` at position `i`.
fn occurs_at_exec(hay: &Vec<char>, needle: &Vec<char>, i: usize) -> (r: bool)
    requires
        i <= hay@.len(),
    ensures
        r == occurs_at(hay@, needle@, i as int),
{
    let n = hay.len();
    if needle.len() > n - i {
        return false;
    }
    let mut j: usize = 0;
    while j < needle.len()
        invariant
            n == hay@.len(),
            i + needle@.len() <= hay@.len(),
            j <= needle@.len(),
            hay@.subrange(i as int, i + j) == needle@.subrange(0, j as int),
        decreases needle@.len() - j,
    {
        if hay[i + j] != needle[j] {
            assert(hay@.subrange(i as int, i + needle@.len())[j as int] != needle@[j as int]);
            return false;
        }
        j = j + 1;
        assert(hay@.subrange(i as int, i + j) =~= needle@.subrange(0, j as int));
    }
    assert(needle@.subrange(0, j as int) =~= needle@);
    true
}

/// Whether `needle` occurs somewhere in `hay`.
pub fn contains_chars(hay: &Vec<char>, needle: &Vec<char>) -> (r: bool)
    ensures
        r == contains_seq(hay@, needle@),
{
    let n = hay.len();
    let mut i: usize = 0;
    while i < n
        invariant
            n == hay@.len(),
            i <= n,
            forall|k: int| 0 <= k < i ==> !occurs_at(hay@, needle@, k),
        decreases n - i,
    {
        if occurs_at_exec(hay, needle, i) {
            return true;
        }
        i = i + 1;
    }
    if occurs_at_exec(hay, needle, n) {
        return true;
    }
    assert forall|k: int| !occurs_at(hay@, needle@, k) by {
        if 0 <= k <= n {
        }
    }
    false
}

/// A web novel site whose episode pages can be read.
#[derive(Clone, Copy, Debug, PartialEq, Eq, Structural)]
pub enum Site {
    Narou,
    Kakuyomu,
}

/// The domain that identifies a site in a URL.
pub open spec fn site_domain(site: Site) -> Seq<char> {
    match site {
        Site::Narou => seq!['s', 'y', 'o', 's', 'e', 't', 'u', '.', 'c', 'o', 'm'],
        Site::Kakuyomu => seq!['k', 'a', 'k', 'u', 'y', 'o', 'm', 'u', '.', 'j', 'p'],
    }
}

impl Site {
    /// The domain that identifies the site in a URL.
    pub fn domain(&self) -> (r: &'static str)
        ensures
            r@ == site_domain(*self),
    {
        match self {
            Site::Narou => {
                let d = "syosetu.com";
                proof {
                    reveal_strlit("syosetu.com");
                }
                assert(d@ =~= site_domain(*self));
                d
            },
            Site::Kakuyomu => {
                let d = "kakuyomu.jp";
                proof {
                    reveal_strlit("kakuyomu.jp");
                }
                assert(d@ =~= site_domain(*self));
                d
            },
        }
    }

    /// The CSS selector of the paragraphs of an episode's text.
    pub fn selector(&self) -> (r: &'static str)
        ensures
            *self == Site::Narou ==> r@ == "div.js-novel-text.p-novel__text p"@,
            *self == Site::Kakuyomu ==> r@ == "div.widget-episodeBody.js-episode-body p"@,
    {
        match self {
            Site::Narou => "div.js-novel-text.p-novel__text p",
            Site::Kakuyomu => "div.widget-episodeBody.js-episode-body p",
        }
    }

    /// The site's name.
    pub fn name(&self) -> (r: &'static str)
        ensures
            *self == Site::Narou ==> r@ == "小説家になろう"@,
            *self == Site::Kakuyomu ==> r@ == "カクヨム"@,
    {
        match self {
            Site::Narou => "小説家になろう",
            Site::Kakuyomu => "カクヨム",
        }
    }

    /// Every supported site, in the order in which URLs are matched.
    pub fn all() -> (r: Vec<Site>)
        ensures
            r@ == seq![Site::Narou, Site::Kakuyomu],
    {
        let r = vec![Site::Narou, Site::Kakuyomu];
        assert(r@ =~= seq![Site::Narou, Site::Kakuyomu]);
        r
    }
}

/// The first supported site whose domain occurs in the URL.
pub open spec fn site_of(url: Seq<char>) -> Option<Site> {
    if contains_seq(url, site_domain(Site::Narou)) {
        Some(Site::Narou)
    } else if contains_seq(url, site_domain(Site::Kakuyomu)) {
        Some(Site::Kakuyomu)
    } else {
        None
    }
}

/// The supported site that a URL belongs to, if any.
pub fn get_site_config(url: &str) -> (r: Option<Site>)
    ensures
        r == site_of(url@),
{
    let chars = chars_of(url);
    let sites = Site::all();
    let mut i: usize = 0;
    while i < sites.len()
        invariant
            sites@ == seq![Site::Narou, Site::Kakuyomu],
            chars@ == url@,
            i <= 2,
            forall|k: int| 0 <= k < i ==> !contains_seq(url@, site_domain(#[trigger] sites@[k])),
        decreases 2 - i,
    {
        let domain = chars_of(sites[i].domain());
        if contains_chars(&chars, &domain) {
            return Some(sites[i]);
        }
        i = i + 1;
    }
    None
}

/// Whether a text without a file name looks like Markdown: it holds `"# "`.
pub open spec fn looks_like_markdown(s: Seq<char>) -> bool {
    contains_seq(s, seq!['#', ' '])
}

/// Whether a text read without a file name should be treated as Markdown.
pub fn detect_markdown(text: &str) -> (r: bool)
    ensures
        r == looks_like_markdown(text@),
{
    let chars = chars_of(text);
    let mark = vec!['#', ' '];
    assert(mark@ =~= seq!['#', ' ']);
    contains_chars(&chars, &mark)
}

/// The text to analyse: the Markdown body where the input is Markdown, the text
/// itself otherwise.
pub fn preprocess_text(text: &str, is_markdown: bool, is_sketch: bool) -> (r: String)
    ensures
        is_markdown ==> r@ == markdown_body(text@, is_sketch),
        !is_markdown ==> r@ == text@,
{
    if is_markdown {
        preprocess_markdown(text, is_sketch)
    } else {
        let chars = chars_of(text);
        string_of(&chars, 0, chars.len())
    }
}

/// The text with markup tags removed, from position `i` on with `in_tag` telling
/// whether a tag is open: `<` opens one, `>` closes it, and neither is kept.
pub open spec fn untagged_from(s: Seq<char>, i: int, in_tag: bool) -> Seq<char>
    decreases s.len() - i,
{
    if i < 0 || i >= s.len() {
        Seq::empty()
    } else if s[i] == '<' {
        untagged_from(s, i + 1, true)
    } else if s[i] == '>' {
        untagged_from(s, i + 1, false)
    } else if in_tag {
        untagged_from(s, i + 1, in_tag)
    } else {
        seq![s[i]] + untagged_from(s, i + 1, in_tag)
    }
}

/// The text with markup tags removed.
pub open spec fn untagged(s: Seq<char>) -> Seq<char> {
    untagged_from(s, 0, false)
}

/// Removes markup tags from characters; see `untagged`.
pub fn strip_tags_chars(chars: &Vec<char>) -> (r: Vec<char>)
    ensures
        r@ == untagged(chars@),
{
    let ghost s = chars@;
    let mut out: Vec<char> = Vec::new();
    let mut in_tag = false;
    let mut i: usize = 0;
    while i < chars.len()
        invariant
            s == chars@,
            i <= s.len(),
            out@ + untagged_from(s, i as int, in_tag) == untagged(s),
        decreases s.len() - i,
    {
        let ghost before = out@;
        let ghost was = in_tag;
        let c = chars[i];
        if c == '<' {
            in_tag = true;
        } else if c == '>' {
            in_tag = false;
        } else if !in_tag {
            out.push(c);
        }
        assert(out@ + untagged_from(s, i + 1, in_tag) =~= before + untagged_from(s, i as int, was));
        i = i + 1;
    }
    assert(out@ + Seq::<char>::empty() =~= out@);
    out
}

/// Removes markup tags from a text; see `untagged`.
pub fn strip_html_tags(text: &str) -> (r: String)
    ensures
        r@ == untagged(text@),
{
    let chars = chars_of(text);
    let out = strip_tags_chars(&chars);
    string_of(&out, 0, out.len())
}

/// The line break tag of the pages read.
pub open spec fn br_tag() -> Seq<char> {
    seq!['<', 'b', 'r', ' ', '/', '>']
}

/// The text with each `<br />`, from position `i` on and left to right, turned into `'\n'`.
pub open spec fn breaks_from(s: Seq<char>, i: int) -> Seq<char>
    decreases s.len() - i,
{
    if i < 0 || i >= s.len() {
        Seq::empty()
    } else if occurs_at(s, br_tag(), i) {
        seq!['\n'] + breaks_from(s, i + 6)
    } else {
        seq![s[i]] + breaks_from(s, i + 1)
    }
}

/// The text of a paragraph's markup: line break tags made line breaks, then all
/// other tags removed.
pub open spec fn paragraph_text(html: Seq<char>) -> Seq<char> {
    untagged(breaks_from(html, 0))
}

/// The text of a paragraph's markup; see `paragraph_text`.
pub fn paragraph_text_of(html: &String) -> (r: Vec<char>)
    ensures
        r@ == paragraph_text(html@),
{
    let chars = chars_of(html.as_str());
    let ghost s = chars@;
    let br = vec!['<', 'b', 'r', ' ', '/', '>'];
    assert(br@ =~= br_tag());
    let mut out: Vec<char> = Vec::new();
    let mut i: usize = 0;
    while i < chars.len()
        invariant
            s == chars@,
            br@ == br_tag(),
            i <= s.len(),
            out@ + breaks_from(s, i as int) == breaks_from(s, 0),
        decreases s.len() - i,
    {
        let ghost before = out@;
        let ghost at = i as int;
        if occurs_at_exec(&chars, &br, i) {
            out.push('\n');
            i = i + 6;
        } else {
            out.push(chars[i]);
            i = i + 1;
        }
        assert(out@ + breaks_from(s, i as int) =~= before + breaks_from(s, at));
    }
    assert(out@ + Seq::<char>::empty() =~= out@);
    strip_tags_chars(&out)
}

/// The page text from its paragraphs' markup, from paragraph `i` on: the text of
/// each paragraph that is not blank, followed by `'\n'`.
pub open spec fn page_text_from(fragments: Seq<Seq<char>>, i: int) -> Seq<char>
    decreases fragments.len() - i,
{
    if i < 0 || i >= fragments.len() {
        Seq::empty()
    } else {
        let t = paragraph_text(fragments[i]);
        if trim_seq(t).len() > 0 {
            t + seq!['\n'] + page_text_from(fragments, i + 1)
        } else {
            page_text_from(fragments, i + 1)
        }
    }
}

/// Builds the page text from the markup of its paragraphs; `None` when no
/// paragraph holds text.
pub fn assemble_page_text(fragments: &Vec<String>) -> (r: Option<String>)
    ensures
        trim_seq(page_text_from(string_views(fragments@), 0)).len() > 0 ==> (r matches Some(t)
            && t@ == page_text_from(string_views(fragments@), 0)),
        trim_seq(page_text_from(string_views(fragments@), 0)).len() == 0 ==> r is None,
{
    let ghost v = string_views(fragments@);
    let mut out: Vec<char> = Vec::new();
    let mut i: usize = 0;
    while i < fragments.len()
        invariant
            v == string_views(fragments@),
            i <= v.len(),
            out@ + page_text_from(v, i as int) == page_text_from(v, 0),
        decreases v.len() - i,
    {
        let ghost before = out@;
        let t = paragraph_text_of(&fragments[i]);
        assert(v[i as int] == fragments@[i as int]@);
        let (lo, hi) = trim_bounds(&t, 0, t.len());
        assert(t@.subrange(0, t@.len() as int) =~= t@);
        if lo < hi {
            let mut j: usize = 0;
            while j < t.len()
                invariant
                    j <= t@.len(),
                    out@ == before + t@.subrange(0, j as int),
                decreases t@.len() - j,
            {
                out.push(t[j]);
                j = j + 1;
                assert(out@ =~= before + t@.subrange(0, j as int));
            }
            assert(t@.subrange(0, j as int) =~= t@);
            out.push('\n');
            assert(out@ + page_text_from(v, i + 1) =~= before + page_text_from(v, i as int));
        }
        i = i + 1;
    }
    assert(out@ + Seq::<char>::empty() =~= out@);
    let (lo, hi) = trim_bounds(&out, 0, out.len());
    assert(out@.subrange(0, out@.len() as int) =~= out@);
    if lo < hi {
        Some(string_of(&out, 0, out.len()))
    } else {
        None
    }
}

/// Whether a text is a CSS selector that `scraper::Selector::parse` accepts.
pub uninterp spec fn selector_ok(selector: Seq<char>) -> bool;

/// A parsed HTML document.
#[verifier::external_type_specification]
#[verifier::external_body]
pub struct ExHtml(scraper::Html);

/// A parsed CSS selector.
#[verifier::external_type_specification]
#[verifier::external_body]
pub struct ExSelector(scraper::Selector);

/// An element of a parsed HTML document.
#[verifier::external_type_specification]
#[verifier::external_body]
pub struct ExElementRef<'a>(scraper::ElementRef<'a>);

/// Relies on `scraper::Selector::parse`: a selector exactly where the text is a
/// valid CSS selector, which depends on the text alone.
#[verifier::external_body]
fn parse_selector(selector: &str) -> (r: Option<scraper::Selector>)
    ensures
        r is Some <==> selector_ok(selector@),
{
    scraper::Selector::parse(selector).ok()
}

/// Relies on `scraper::Html::parse_document`, which parses any text into a
/// document, repairing malformed markup as browsers do.
#[verifier::external_body]
fn parse_page(html: &str) -> scraper::Html {
    scraper::Html::parse_document(html)
}

/// Relies on `scraper::Html::select`: the elements that the selector matches, in
/// document order.
#[verifier::external_body]
fn select_elements<'a>(
    page: &'a scraper::Html,
    selector: &scraper::Selector,
) -> Vec<scraper::ElementRef<'a>> {
    page.select(selector).collect()
}

/// Relies on `scraper::ElementRef::inner_html`: the markup of the element's
/// children. Attributes may come out in any order, so nothing more is stated.
#[verifier::external_body]
fn inner_markup(element: &scraper::ElementRef) -> String {
    element.inner_html()
}

/// The inner markup of each element that the selector matches, in document order.
fn selected_markup(page: &scraper::Html, selector: &scraper::Selector) -> Vec<String> {
    let elements = select_elements(page, selector);
    let mut markup: Vec<String> = Vec::new();
    let mut i: usize = 0;
    while i < elements.len()
        invariant
            i <= elements@.len(),
        decreases elements@.len() - i,
    {
        markup.push(inner_markup(&elements[i]));
        i = i + 1;
    }
    markup
}

/// Why no text could be taken from a page.
#[derive(Clone, Copy, Debug, PartialEq, Eq, Structural)]
pub enum ExtractError {
    /// The selector is not valid CSS.
    BadSelector,
    /// No paragraph that the selector matches holds text.
    NoText,
}

/// The text of the paragraphs of an HTML page that `selector` matches: line
/// break tags become line breaks, other tags are removed, and each paragraph that
/// is not blank ends with `'\n'`. The markup of each paragraph is built by the
/// HTML library, which may order attributes differently from call to call, so
/// the text is stated through `assemble_page_text`, which takes that markup.
pub fn extract_text_by_selector(html: &str, selector: &str) -> (r: Result<String, ExtractError>)
    ensures
        !selector_ok(selector@) <==> r == Err::<String, ExtractError>(ExtractError::BadSelector),
        r matches Ok(t) ==> trim_seq(t@).len() > 0,
{
    let selector = match parse_selector(selector) {
        Some(s) => s,
        None => {
            return Err(ExtractError::BadSelector);
        },
    };
    let page = parse_page(html);
    let fragments = selected_markup(&page, &selector);
    match assemble_page_text(&fragments) {
        Some(t) => Ok(t),
        None => Err(ExtractError::NoText),
    }
}

/// The text of an episode page of 小説家になろう.
pub fn extract_narou_text(html: &str) -> (r: Result<String, ExtractError>)
    ensures
        !selector_ok("div.js-novel-text.p-novel__text p"@) <==> r == Err::<String, ExtractError>(
            ExtractError::BadSelector,
        ),
        r matches Ok(t) ==> trim_seq(t@).len() > 0,
{
    extract_text_by_selector(html, Site::Narou.selector())
}

/// The text of an episode page of カクヨム.
pub fn extract_kakuyomu_text(html: &str) -> (r: Result<String, ExtractError>)
    ensures
        !selector_ok("div.widget-episodeBody.js-episode-body p"@) <==> r == Err::<
            String,
            ExtractError,
        >(ExtractError::BadSelector),
        r matches Ok(t) ==> trim_seq(t@).len() > 0,
{
    extract_text_by_selector(html, Site::Kakuyomu.selector())
}

} // verus!
