use vstd::prelude::*;

use crate::stats::paragraph_pieces;
use crate::text::{
    chars_of, copy_range, starts_with, starts_with_at, string_of, trim_bounds, trim_seq,
    trim_start_index, trim_start_seq,
};

verus! {

/// The views of a list of character vectors.
pub open spec fn vec_views(v: Seq<Vec<char>>) -> Seq<Seq<char>> {
    v.map_values(|x: Vec<char>| x@)
}

/// A line without the `'\r'` that ends it, if any.
pub open spec fn strip_cr(p: Seq<char>) -> Seq<char> {
    if p.len() > 0 && p.last() == '\r' {
        p.drop_last()
    } else {
        p
    }
}

/// The lines of `s[start..]`, scanning on from `i`, as `str::lines` gives them:
/// split at each `'\n'`, a `'\r'` before it dropped, and no empty line after a
/// final line break.
pub open spec fn lines_from(s: Seq<char>, i: int, start: int) -> Seq<Seq<char>>
    decreases s.len() - i,
{
    if i < 0 || i >= s.len() {
        if start < s.len() {
            seq![s.subrange(start, s.len() as int)]
        } else {
            Seq::empty()
        }
    } else if s[i] == '\n' {
        seq![strip_cr(s.subrange(start, i))] + lines_from(s, i + 1, i + 1)
    } else {
        lines_from(s, i + 1, start)
    }
}

/// The lines of a text.
pub open spec fn lines_of(s: Seq<char>) -> Seq<Seq<char>> {
    lines_from(s, 0, 0)
}

/// Whether a line is a Markdown header: its first character that is not blank is `#`.
pub open spec fn is_header(line: Seq<char>) -> bool {
    trim_start_seq(line).len() > 0 && trim_start_seq(line)[0] == '#'
}

/// The lines that are not headers, in order.
pub open spec fn without_headers(lines: Seq<Seq<char>>) -> Seq<Seq<char>>
    decreases lines.len(),
{
    if lines.len() == 0 {
        Seq::empty()
    } else {
        without_headers(lines.drop_last()) + if is_header(lines.last()) {
            Seq::empty()
        } else {
            seq![lines.last()]
        }
    }
}

/// The pieces that hold a character that is not blank, in order.
pub open spec fn filled_pieces(pieces: Seq<Seq<char>>) -> Seq<Seq<char>>
    decreases pieces.len(),
{
    if pieces.len() == 0 {
        Seq::empty()
    } else {
        filled_pieces(pieces.drop_last()) + if trim_seq(pieces.last()).len() > 0 {
            seq![pieces.last()]
        } else {
            Seq::empty()
        }
    }
}

/// The lines joined with `'\n'` between each two.
pub open spec fn join_lines(lines: Seq<Seq<char>>) -> Seq<char>
    decreases lines.len(),
{
    if lines.len() == 0 {
        Seq::empty()
    } else if lines.len() == 1 {
        lines[0]
    } else {
        join_lines(lines.drop_last()) + seq!['\n'] + lines.last()
    }
}

/// Splits the characters of a text into lines, as `str::lines` does.
pub fn split_lines(chars: &Vec<char>) -> (r: Vec<Vec<char>>)
    ensures
        vec_views(r@) == lines_of(chars@),
{
    let ghost s = chars@;
    let n = chars.len();
    let mut lines: Vec<Vec<char>> = Vec::new();
    let mut start: usize = 0;
    let mut i: usize = 0;
    while i < n
        invariant
            s == chars@,
            n == s.len(),
            start <= i <= n,
            vec_views(lines@) + lines_from(s, i as int, start as int) == lines_of(s),
        decreases n - i,
    {
        if chars[i] == '\n' {
            let end = if i > start && chars[i - 1] == '\r' {
                i - 1
            } else {
                i
            };
            let line = copy_range(chars, start, end);
            let ghost old_views = vec_views(lines@);
            proof {
                let p = s.subrange(start as int, i as int);
                if i > start && s[i - 1] == '\r' {
                    assert(p.drop_last() =~= s.subrange(start as int, end as int));
                }
                assert(strip_cr(p) == line@);
            }
            lines.push(line);
            assert(vec_views(lines@) + lines_from(s, i + 1, i + 1) =~= old_views + lines_from(
                s,
                i as int,
                start as int,
            ));
            start = i + 1;
        }
        i = i + 1;
    }
    if start < n {
        let line = copy_range(chars, start, n);
        let ghost old_views = vec_views(lines@);
        lines.push(line);
        assert(vec_views(lines@) =~= old_views + lines_from(s, n as int, start as int));
    } else {
        assert(vec_views(lines@) =~= vec_views(lines@) + lines_from(s, n as int, start as int));
    }
    lines
}

/// Whether a line is a Markdown header.
fn is_header_line(line: &Vec<char>) -> (r: bool)
    ensures
        r == is_header(line@),
{
    let lo = trim_start_index(line, 0, line.len());
    assert(line@.subrange(0, line@.len() as int) =~= line@);
    lo < line.len() && line[lo] == '#'
}

/// The lines that are not Markdown headers.
pub fn drop_headers(lines: &Vec<Vec<char>>) -> (r: Vec<Vec<char>>)
    ensures
        vec_views(r@) == without_headers(vec_views(lines@)),
{
    let ghost v = vec_views(lines@);
    let mut kept: Vec<Vec<char>> = Vec::new();
    let mut i: usize = 0;
    while i < lines.len()
        invariant
            v == vec_views(lines@),
            i <= v.len(),
            vec_views(kept@) == without_headers(v.take(i as int)),
        decreases v.len() - i,
    {
        assert(v.take(i as int + 1).drop_last() =~= v.take(i as int));
        assert(v.take(i as int + 1).last() == lines@[i as int]@);
        let ghost old_views = vec_views(kept@);
        if !is_header_line(&lines[i]) {
            kept.push(lines[i].clone());
            assert(vec_views(kept@) =~= old_views + seq![lines@[i as int]@]);
        } else {
            assert(old_views + Seq::<Seq<char>>::empty() =~= old_views);
        }
        i = i + 1;
    }
    assert(v.take(i as int) =~= v);
    kept
}

/// The pieces that hold a character that is not blank.
pub fn keep_filled(pieces: &Vec<Vec<char>>) -> (r: Vec<Vec<char>>)
    ensures
        vec_views(r@) == filled_pieces(vec_views(pieces@)),
{
    let ghost v = vec_views(pieces@);
    let mut kept: Vec<Vec<char>> = Vec::new();
    let mut i: usize = 0;
    while i < pieces.len()
        invariant
            v == vec_views(pieces@),
            i <= v.len(),
            vec_views(kept@) == filled_pieces(v.take(i as int)),
        decreases v.len() - i,
    {
        assert(v.take(i as int + 1).drop_last() =~= v.take(i as int));
        assert(v.take(i as int + 1).last() == pieces@[i as int]@);
        let ghost old_views = vec_views(kept@);
        let (lo, hi) = trim_bounds(&pieces[i], 0, pieces[i].len());
        assert(pieces@[i as int]@.subrange(0, pieces@[i as int]@.len() as int) =~= pieces@[i as int]@);
        if lo < hi {
            kept.push(pieces[i].clone());
            assert(vec_views(kept@) =~= old_views + seq![pieces@[i as int]@]);
        } else {
            assert(old_views + Seq::<Seq<char>>::empty() =~= old_views);
        }
        i = i + 1;
    }
    assert(v.take(i as int) =~= v);
    kept
}

/// The lines joined with `'\n'` between each two.
pub fn join_with_newlines(lines: &Vec<Vec<char>>) -> (r: Vec<char>)
    ensures
        r@ == join_lines(vec_views(lines@)),
{
    let ghost v = vec_views(lines@);
    let mut out: Vec<char> = Vec::new();
    let mut i: usize = 0;
    while i < lines.len()
        invariant
            v == vec_views(lines@),
            i <= v.len(),
            out@ == join_lines(v.take(i as int)),
        decreases v.len() - i,
    {
        let ghost before = out@;
        let ghost t = v.take(i as int + 1);
        assert(t.drop_last() =~= v.take(i as int));
        assert(t.last() == lines@[i as int]@);
        if i > 0 {
            out.push('\n');
        }
        let line = &lines[i];
        let mut j: usize = 0;
        let ghost mid = out@;
        while j < line.len()
            invariant
                j <= line@.len(),
                out@ == mid + line@.subrange(0, j as int),
            decreases line@.len() - j,
        {
            out.push(line[j]);
            j = j + 1;
            assert(out@ =~= mid + line@.subrange(0, j as int));
        }
        assert(line@.subrange(0, j as int) =~= line@);
        proof {
            if i == 0 {
                assert(before =~= Seq::<char>::empty());
                assert(out@ =~= t[0]);
            } else {
                assert(out@ =~= join_lines(t.drop_last()) + seq!['\n'] + t.last());
            }
        }
        i = i + 1;
    }
    assert(v.take(i as int) =~= v);
    out
}

/// Splits characters at each `"\n\n"`, left to right and without overlap.
pub fn split_paragraphs(chars: &Vec<char>) -> (r: Vec<Vec<char>>)
    ensures
        vec_views(r@) == paragraph_pieces(chars@, 0, 0),
{
    let ghost s = chars@;
    let n = chars.len();
    let mut pieces: Vec<Vec<char>> = Vec::new();
    let mut start: usize = 0;
    let mut i: usize = 0;
    while i < n
        invariant
            s == chars@,
            n == s.len(),
            start <= i <= n,
            vec_views(pieces@) + paragraph_pieces(s, i as int, start as int) == paragraph_pieces(
                s,
                0,
                0,
            ),
        decreases n - i,
    {
        if i + 1 < n && chars[i] == '\n' && chars[i + 1] == '\n' {
            let piece = copy_range(chars, start, i);
            let ghost old_views = vec_views(pieces@);
            pieces.push(piece);
            assert(vec_views(pieces@) + paragraph_pieces(s, i + 2, i + 2) =~= old_views
                + paragraph_pieces(s, i as int, start as int));
            i = i + 2;
            start = i;
        } else {
            i = i + 1;
        }
    }
    let piece = copy_range(chars, start, n);
    let ghost old_views = vec_views(pieces@);
    pieces.push(piece);
    assert(vec_views(pieces@) =~= old_views + paragraph_pieces(s, n as int, start as int));
    pieces
}

/// The marker of a logline block in a scene sketch.
pub open spec fn logline_marker() -> Seq<char> {
    seq!['*', '*', 'ロ', 'グ', 'ラ', 'イ', 'ン', '*', '*']
}

/// The Japanese marker of an author's note.
pub open spec fn note_marker_ja() -> Seq<char> {
    seq!['*', '*', '作', '者', 'ノ', 'ー', 'ト', '*', '*']
}

/// The English marker of an author's note.
pub open spec fn note_marker_en() -> Seq<char> {
    seq!['*', '*', 'A', 'u', 't', 'h', 'o', 'r', '\'', 's', ' ', 'N', 'o', 't', 'e', '*', '*']
}

/// A separator line.
pub open spec fn separator() -> Seq<char> {
    seq!['-', '-', '-']
}

/// The body lines of a scene sketch from line `i` on. `in_logline` says whether a
/// logline block is open: its marker line opens it and the next separator line
/// closes it, and every line from the one to the other is dropped. `leading` says
/// whether blank lines are still dropped: they are until a body line is kept or a
/// separator is read. An author's note marker ends the body.
pub open spec fn sketch_from(lines: Seq<Seq<char>>, i: int, in_logline: bool, leading: bool) -> Seq<
    Seq<char>,
>
    decreases lines.len() - i,
{
    if i < 0 || i >= lines.len() {
        Seq::empty()
    } else {
        let t = trim_seq(lines[i]);
        if starts_with(t, logline_marker()) {
            sketch_from(lines, i + 1, true, leading)
        } else if t == separator() {
            sketch_from(lines, i + 1, false, false)
        } else if starts_with(t, note_marker_ja()) || starts_with(t, note_marker_en()) {
            Seq::empty()
        } else if in_logline || (leading && t.len() == 0) {
            sketch_from(lines, i + 1, in_logline, leading)
        } else {
            seq![lines[i]] + sketch_from(lines, i + 1, false, false)
        }
    }
}

/// The body of a scene sketch: its lines without the logline block (marker up to
/// and including the next separator), other separators, blank lines before the
/// first body line or separator, and the author's note with everything after it.
pub open spec fn sketch_body(lines: Seq<Seq<char>>) -> Seq<Seq<char>> {
    sketch_from(lines, 0, false, true)
}

/// Whether `chars[lo..hi]` is a separator line.
fn is_separator(chars: &Vec<char>, lo: usize, hi: usize) -> (r: bool)
    requires
        lo <= hi <= chars@.len(),
    ensures
        r == (chars@.subrange(lo as int, hi as int) == separator()),
{
    let ghost t = chars@.subrange(lo as int, hi as int);
    if hi - lo == 3 && chars[lo] == '-' && chars[lo + 1] == '-' && chars[lo + 2] == '-' {
        assert(t =~= separator());
        true
    } else {
        proof {
            if t == separator() {
                assert(separator().len() == 3);
                assert(t[0] == '-' && t[1] == '-' && t[2] == '-');
                assert(t[0] == chars@[lo as int] && t[1] == chars@[lo + 1] && t[2] == chars@[lo
                    + 2]);
            }
        }
        false
    }
}

/// Keeps the body lines of a scene sketch; see `sketch_body`.
pub fn remove_sketch_metadata(lines: &Vec<Vec<char>>) -> (r: Vec<Vec<char>>)
    ensures
        vec_views(r@) == sketch_body(vec_views(lines@)),
{
    let ghost v = vec_views(lines@);
    let logline = chars_of("**ログライン**");
    let note_ja = chars_of("**作者ノート**");
    let note_en = chars_of("**Author's Note**");
    proof {
        reveal_strlit("**ログライン**");
        reveal_strlit("**作者ノート**");
        reveal_strlit("**Author's Note**");
    }
    assert(logline@ =~= logline_marker());
    assert(note_ja@ =~= note_marker_ja());
    assert(note_en@ =~= note_marker_en());
    let mut result: Vec<Vec<char>> = Vec::new();
    let mut in_logline = false;
    let mut leading = true;
    let mut i: usize = 0;
    while i < lines.len()
        invariant
            v == vec_views(lines@),
            i <= v.len(),
            logline@ == logline_marker(),
            note_ja@ == note_marker_ja(),
            note_en@ == note_marker_en(),
            vec_views(result@) + sketch_from(v, i as int, in_logline, leading) == sketch_body(v),
        decreases v.len() - i,
    {
        let line = &lines[i];
        assert(v[i as int] == line@);
        let (lo, hi) = trim_bounds(line, 0, line.len());
        assert(line@.subrange(0, line@.len() as int) =~= line@);
        let ghost old_views = vec_views(result@);
        if starts_with_at(line, lo, hi, &logline) {
            in_logline = true;
        } else if is_separator(line, lo, hi) {
            in_logline = false;
            leading = false;
        } else if starts_with_at(line, lo, hi, &note_ja) || starts_with_at(line, lo, hi, &note_en) {
            assert(vec_views(result@) =~= vec_views(result@) + Seq::<Seq<char>>::empty());
            return result;
        } else if in_logline || (leading && lo == hi) {
        } else {
            leading = false;
            result.push(line.clone());
            assert(vec_views(result@) + sketch_from(v, i + 1, false, false) =~= old_views + (seq![
                v[i as int],
            ] + sketch_from(v, i + 1, false, false)));
        }
        i = i + 1;
    }
    assert(vec_views(result@) =~= vec_views(result@) + sketch_from(
        v,
        i as int,
        in_logline,
        leading,
    ));
    result
}

/// The prose of a Markdown text: headers dropped, for a scene sketch only its body
/// kept, and blank-line paragraph breaks turned into single line breaks.
pub open spec fn markdown_body(s: Seq<char>, is_sketch: bool) -> Seq<char> {
    let kept = without_headers(lines_of(s));
    let body = if is_sketch {
        sketch_body(kept)
    } else {
        kept
    };
    join_lines(filled_pieces(paragraph_pieces(join_lines(body), 0, 0)))
}

/// Prepares a Markdown text for analysis; see `markdown_body`.
pub fn preprocess_markdown(text: &str, is_sketch: bool) -> (r: String)
    ensures
        r@ == markdown_body(text@, is_sketch),
{
    let chars = chars_of(text);
    let lines = split_lines(&chars);
    let mut kept = drop_headers(&lines);
    if is_sketch {
        kept = remove_sketch_metadata(&kept);
    }
    let joined = join_with_newlines(&kept);
    let pieces = split_paragraphs(&joined);
    let filled = keep_filled(&pieces);
    let out = join_with_newlines(&filled);
    string_of(&out, 0, out.len())
}

} // verus!
