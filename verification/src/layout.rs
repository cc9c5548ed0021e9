//! Greedy word-wrap layout: fits a sequence of measured words into a box of
//! `max_w` by `max_h` pixels, emitting lines until the next line would cross
//! the bottom edge (overflow is silently truncated by design).

use vstd::prelude::*;

verus! {

/// Font metrics at the chosen pixel size, in whole pixels, as derived from
/// the parsed font by the surrounding application.
#[derive(Clone, Copy, PartialEq, Eq, Structural, Debug)]
pub struct FontMetrics {
    /// Distance from the top of a line to its baseline.
    pub ascent: u32,
    /// Vertical distance between consecutive line tops.
    pub line_height: u32,
    /// Advance width of a single space character.
    pub space_width: u32,
}

/// One wrapped line: the words at indices `start..end`, joined by single
/// spaces, with its top edge `y` pixels below the top of the box.
#[derive(Clone, Copy, PartialEq, Eq, Structural, Debug)]
pub struct LineSpan {
    pub start: usize,
    pub end: usize,
    pub y: u32,
}

/// Measured width of the line made of the words at `s..e`, joined by single
/// spaces: the word widths plus one space width between adjacent words.
pub open spec fn line_width(widths: Seq<u32>, space: u32, s: int, e: int) -> int
    decreases e - s,
{
    if e <= s {
        0
    } else if e == s + 1 {
        widths[s] as int
    } else {
        line_width(widths, space, s, e - 1) + space + widths[e - 1]
    }
}

/// Greedy extension: starting from a line already holding words `s..e`,
/// keep appending the next word while the line still fits in `max_w`.
pub open spec fn greedy_end(widths: Seq<u32>, space: u32, max_w: u32, s: int, e: int) -> int
    decreases widths.len() - e,
{
    if e < widths.len() && line_width(widths, space, s, e + 1) <= max_w {
        greedy_end(widths, space, max_w, s, e + 1)
    } else {
        e
    }
}

pub proof fn lemma_greedy_end_bounds(widths: Seq<u32>, space: u32, max_w: u32, s: int, e: int)
    requires
        s < e <= widths.len(),
    ensures
        e <= greedy_end(widths, space, max_w, s, e) <= widths.len(),
    decreases widths.len() - e,
{
    if e < widths.len() && line_width(widths, space, s, e + 1) <= max_w {
        lemma_greedy_end_bounds(widths, space, max_w, s, e + 1);
    }
}

/// The lines of the greedy wrap of the words at `s..`, with `k` lines already
/// emitted above them. A line is emitted only if it still fits vertically:
/// its top offset `k * line_h` plus one line height must not exceed `max_h`.
pub open spec fn spec_wrap(
    widths: Seq<u32>,
    space: u32,
    line_h: u32,
    max_w: u32,
    max_h: u32,
    s: int,
    k: int,
) -> Seq<LineSpan>
    decreases widths.len() - s,
    when 0 <= s
    via spec_wrap_decreases
{
    if s >= widths.len() {
        Seq::empty()
    } else if k * line_h + line_h > max_h {
        Seq::empty()
    } else {
        let e = greedy_end(widths, space, max_w, s, s + 1);
        seq![
            LineSpan { start: s as usize, end: e as usize, y: (k * line_h) as u32 },
        ] + spec_wrap(widths, space, line_h, max_w, max_h, e, k + 1)
    }
}

#[via_fn]
proof fn spec_wrap_decreases(
    widths: Seq<u32>,
    space: u32,
    line_h: u32,
    max_w: u32,
    max_h: u32,
    s: int,
    k: int,
) {
    if 0 <= s < widths.len() && !(k * line_h + line_h > max_h) {
        lemma_greedy_end_bounds(widths, space, max_w, s, s + 1);
    }
}

proof fn lemma_greedy_end_fits(widths: Seq<u32>, space: u32, max_w: u32, s: int, e: int)
    requires
        s < e <= widths.len(),
        e == s + 1 || line_width(widths, space, s, e) <= max_w,
    ensures
        greedy_end(widths, space, max_w, s, e) == s + 1 || line_width(
            widths,
            space,
            s,
            greedy_end(widths, space, max_w, s, e),
        ) <= max_w,
    decreases widths.len() - e,
{
    if e < widths.len() && line_width(widths, space, s, e + 1) <= max_w {
        lemma_greedy_end_fits(widths, space, max_w, s, e + 1);
    }
}

/// Law: the wrap never breaks a word and never leaves a gap. Every emitted
/// line covers a nonempty consecutive range of words, the first line starts
/// at word `s`, and each following line starts where the previous one ended.
pub proof fn lemma_wrap_structure(
    widths: Seq<u32>,
    space: u32,
    line_h: u32,
    max_w: u32,
    max_h: u32,
    s: int,
    k: int,
)
    requires
        0 <= s,
        0 <= k,
        widths.len() <= usize::MAX,
    ensures
        forall|i: int|
            0 <= i < spec_wrap(widths, space, line_h, max_w, max_h, s, k).len()
                ==> (#[trigger] spec_wrap(widths, space, line_h, max_w, max_h, s, k)[i]).start
                < spec_wrap(widths, space, line_h, max_w, max_h, s, k)[i].end
                <= widths.len(),
        spec_wrap(widths, space, line_h, max_w, max_h, s, k).len() > 0
            ==> spec_wrap(widths, space, line_h, max_w, max_h, s, k)[0].start == s,
        forall|i: int|
            1 <= i < spec_wrap(widths, space, line_h, max_w, max_h, s, k).len()
                ==> (#[trigger] spec_wrap(widths, space, line_h, max_w, max_h, s, k)[i]).start
                == spec_wrap(widths, space, line_h, max_w, max_h, s, k)[i - 1].end,
    decreases widths.len() - s,
{
    let r = spec_wrap(widths, space, line_h, max_w, max_h, s, k);
    if s < widths.len() && !(k * line_h + line_h > max_h) {
        let e = greedy_end(widths, space, max_w, s, s + 1);
        lemma_greedy_end_bounds(widths, space, max_w, s, s + 1);
        lemma_wrap_structure(widths, space, line_h, max_w, max_h, e, k + 1);
        let rest = spec_wrap(widths, space, line_h, max_w, max_h, e, k + 1);
        let head = LineSpan { start: s as usize, end: e as usize, y: (k * line_h) as u32 };
        assert(r =~= seq![head] + rest);
        assert(r.len() == 1 + rest.len());
        assert(r[0] == head);
        assert forall|i: int| 1 <= i < r.len() implies r[i] == rest[i - 1] by {}
        assert forall|i: int| 0 <= i < r.len() implies (#[trigger] r[i]).start < r[i].end
            <= widths.len() by {
            if i > 0 {
                assert(r[i] == rest[i - 1]);
            }
        }
        assert forall|i: int| 1 <= i < r.len() implies (#[trigger] r[i]).start == r[i
            - 1].end by {
            assert(r[i] == rest[i - 1]);
            if i == 1 {
                assert(rest.len() > 0 ==> rest[0].start == e);
            } else {
                assert(r[i - 1] == rest[i - 2]);
            }
        }
    }
}

/// Law: no emitted line is wider than `max_w`, except a line holding a single
/// word that alone exceeds `max_w` (such a word stands on its own line,
/// never split).
pub proof fn lemma_wrap_width(
    widths: Seq<u32>,
    space: u32,
    line_h: u32,
    max_w: u32,
    max_h: u32,
    s: int,
    k: int,
)
    requires
        0 <= s,
        0 <= k,
        widths.len() <= usize::MAX,
    ensures
        forall|i: int|
            0 <= i < spec_wrap(widths, space, line_h, max_w, max_h, s, k).len()
                ==> ((#[trigger] spec_wrap(widths, space, line_h, max_w, max_h, s, k)[i]).end
                == spec_wrap(widths, space, line_h, max_w, max_h, s, k)[i].start + 1
                || line_width(
                widths,
                space,
                spec_wrap(widths, space, line_h, max_w, max_h, s, k)[i].start as int,
                spec_wrap(widths, space, line_h, max_w, max_h, s, k)[i].end as int,
            ) <= max_w),
    decreases widths.len() - s,
{
    let r = spec_wrap(widths, space, line_h, max_w, max_h, s, k);
    if s < widths.len() && !(k * line_h + line_h > max_h) {
        let e = greedy_end(widths, space, max_w, s, s + 1);
        lemma_greedy_end_bounds(widths, space, max_w, s, s + 1);
        lemma_greedy_end_fits(widths, space, max_w, s, s + 1);
        lemma_wrap_width(widths, space, line_h, max_w, max_h, e, k + 1);
        let rest = spec_wrap(widths, space, line_h, max_w, max_h, e, k + 1);
        let head = LineSpan { start: s as usize, end: e as usize, y: (k * line_h) as u32 };
        assert(r =~= seq![head] + rest);
        assert(r.len() == 1 + rest.len());
        assert(r[0] == head);
        assert forall|i: int| 0 <= i < r.len() implies ((#[trigger] r[i]).end == r[i].start
            + 1 || line_width(widths, space, r[i].start as int, r[i].end as int) <= max_w) by {
            if i > 0 {
                assert(r[i] == rest[i - 1]);
            }
        }
    }
}

/// Law: emitted lines never overflow the box vertically. Line `i` sits at
/// offset `(k + i) * line_h`, each emitted line ends above `max_h`, and hence
/// the emitted line count times the line height never exceeds `max_h` (lines
/// past that bound are omitted, not shrunk).
pub proof fn lemma_wrap_height(
    widths: Seq<u32>,
    space: u32,
    line_h: u32,
    max_w: u32,
    max_h: u32,
    s: int,
    k: int,
)
    requires
        0 <= s,
        0 <= k,
        widths.len() <= usize::MAX,
    ensures
        forall|i: int|
            0 <= i < spec_wrap(widths, space, line_h, max_w, max_h, s, k).len()
                ==> (#[trigger] spec_wrap(widths, space, line_h, max_w, max_h, s, k)[i]).y == (k
                + i) * line_h && (k + i) * line_h + line_h <= max_h,
        (k + spec_wrap(widths, space, line_h, max_w, max_h, s, k).len()) * line_h <= max_h
            || spec_wrap(widths, space, line_h, max_w, max_h, s, k).len() == 0,
    decreases widths.len() - s,
{
    let r = spec_wrap(widths, space, line_h, max_w, max_h, s, k);
    if s < widths.len() && !(k * line_h + line_h > max_h) {
        let e = greedy_end(widths, space, max_w, s, s + 1);
        lemma_greedy_end_bounds(widths, space, max_w, s, s + 1);
        lemma_wrap_height(widths, space, line_h, max_w, max_h, e, k + 1);
        let rest = spec_wrap(widths, space, line_h, max_w, max_h, e, k + 1);
        let head = LineSpan { start: s as usize, end: e as usize, y: (k * line_h) as u32 };
        assert(r =~= seq![head] + rest);
        assert(r.len() == 1 + rest.len());
        assert(r[0] == head);
        assert((k + 1) * line_h == k * line_h + line_h) by (nonlinear_arith);
        assert(r[0].y == k * line_h);
        assert forall|i: int| 0 <= i < r.len() implies (#[trigger] r[i]).y == (k + i) * line_h
            && (k + i) * line_h + line_h <= max_h by {
            if i > 0 {
                assert(r[i] == rest[i - 1]);
                assert((k + 1 + (i - 1)) * line_h == (k + i) * line_h);
            }
        }
        if rest.len() == 0 {
            assert((k + r.len()) * line_h == k * line_h + line_h) by (nonlinear_arith)
                requires
                    r.len() == 1,
            ;
        } else {
            assert((k + 1 + rest.len()) * line_h == (k + r.len()) * line_h);
        }
    }
}

/// Law: wrapping a single word that already fits, in a box at least one line
/// tall, yields exactly one line, at offset zero, whose text is exactly that
/// word: wrapping pre-wrapped input changes nothing.
pub proof fn lemma_wrap_single_word(widths: Seq<u32>, space: u32, line_h: u32, max_w: u32, max_h: u32)
    requires
        widths.len() == 1,
        widths[0] <= max_w,
        line_h <= max_h,
    ensures
        spec_wrap(widths, space, line_h, max_w, max_h, 0, 0) =~= seq![
            LineSpan { start: 0, end: 1, y: 0 },
        ],
        forall|words: Seq<Seq<char>>| words.len() == 1 ==> #[trigger] joined(words, 0, 1)
            == words[0],
{
    assert(greedy_end(widths, space, max_w, 0, 1) == 1);
    assert(spec_wrap(widths, space, line_h, max_w, max_h, 1, 1) =~= Seq::<LineSpan>::empty());
}

/// Greedy word-wrap over measured word widths. Returns the wrapped line
/// spans, in order, each with its vertical offset from the top of the box.
pub fn wrap_spans(widths: &Vec<u32>, space: u32, line_h: u32, max_w: u32, max_h: u32) -> (r:
    Vec<LineSpan>)
    ensures
        r@ == spec_wrap(widths@, space, line_h, max_w, max_h, 0, 0),
{
    let ghost total = spec_wrap(widths@, space, line_h, max_w, max_h, 0, 0);
    let n: usize = widths.len();
    let mut out: Vec<LineSpan> = Vec::new();
    let mut s: usize = 0;
    let mut k: usize = 0;
    let mut pen: u32 = 0;
    loop
        invariant
            k <= s <= n,
            n == widths@.len(),
            pen == k * line_h,
            out@.len() == k,
            out@ + spec_wrap(widths@, space, line_h, max_w, max_h, s as int, k as int)
                =~= total,
        ensures
            out@ =~= total,
        decreases n - s,
    {
        if s >= n {
            proof {
                assert(spec_wrap(widths@, space, line_h, max_w, max_h, s as int, k as int)
                    =~= Seq::<LineSpan>::empty());
                assert(out@ + Seq::<LineSpan>::empty() =~= out@);
            }
            break ;
        }
        if pen as u64 + line_h as u64 > max_h as u64 {
            proof {
                assert(spec_wrap(widths@, space, line_h, max_w, max_h, s as int, k as int)
                    =~= Seq::<LineSpan>::empty());
                assert(out@ + Seq::<LineSpan>::empty() =~= out@);
            }
            break ;
        }
        // Greedy: extend the line starting at word s while the next word fits.
        let mut e: usize = s + 1;
        let mut lw: u64 = widths[s] as u64;
        while e < n
            invariant
                s < e <= n,
                n == widths@.len(),
                lw <= u32::MAX as u64,
                lw == line_width(widths@, space, s as int, e as int),
                greedy_end(widths@, space, max_w, s as int, e as int)
                    == greedy_end(widths@, space, max_w, s as int, s + 1),
            ensures
                s < e <= n,
                e as int == greedy_end(widths@, space, max_w, s as int, s + 1),
            decreases n - e,
        {
            let cand: u64 = lw + space as u64 + widths[e] as u64;
            if cand > max_w as u64 {
                proof {
                    assert(line_width(widths@, space, s as int, e as int + 1)
                        == lw + space + widths@[e as int]);
                    assert(greedy_end(widths@, space, max_w, s as int, e as int)
                        == e as int);
                }
                break ;
            }
            lw = cand;
            e = e + 1;
        }
        let line = LineSpan { start: s, end: e, y: pen };
        out.push(line);
        proof {
            assert(spec_wrap(widths@, space, line_h, max_w, max_h, s as int, k as int)
                =~= seq![line] + spec_wrap(
                widths@,
                space,
                line_h,
                max_w,
                max_h,
                e as int,
                k as int + 1,
            ));
            assert(out@ + spec_wrap(widths@, space, line_h, max_w, max_h, e as int, k as int
                + 1) =~= total);
            assert((k as int + 1) * line_h == k as int * line_h + line_h)
                by (nonlinear_arith);
        }
        s = e;
        k = k + 1;
        pen = pen + line_h;
    }
    out
}


/// Whitespace for word splitting: the blank and the ASCII control
/// whitespace, 0x09 through 0x0D (tab, line feed, vertical tab, form feed,
/// carriage return). Unicode-only whitespace (no-break space and the like)
/// is not treated as a separator.
pub open spec fn is_space(c: char) -> bool {
    c == ' ' || (9 <= c as int && c as int <= 13)
}

/// First index at or after `i` that holds whitespace (or the end of the text).
pub open spec fn word_end(s: Seq<char>, i: int) -> int
    decreases s.len() - i,
    when 0 <= i
{
    if i >= s.len() || is_space(s[i]) {
        i
    } else {
        word_end(s, i + 1)
    }
}

pub proof fn lemma_word_end_bounds(s: Seq<char>, i: int)
    requires
        0 <= i <= s.len(),
    ensures
        i <= word_end(s, i) <= s.len(),
        i < s.len() && !is_space(s[i]) ==> word_end(s, i) > i,
    decreases s.len() - i,
{
    if i < s.len() && !is_space(s[i]) {
        lemma_word_end_bounds(s, i + 1);
    }
}

/// The words of the text from index `i` on: maximal runs of non-whitespace
/// characters, in order.
pub open spec fn spec_split(s: Seq<char>, i: int) -> Seq<Seq<char>>
    decreases s.len() - i,
    when 0 <= i
    via spec_split_decreases
{
    if i >= s.len() {
        Seq::empty()
    } else if is_space(s[i]) {
        spec_split(s, i + 1)
    } else {
        seq![s.subrange(i, word_end(s, i))] + spec_split(s, word_end(s, i))
    }
}

#[via_fn]
proof fn spec_split_decreases(s: Seq<char>, i: int) {
    if 0 <= i < s.len() && !is_space(s[i]) {
        lemma_word_end_bounds(s, i);
    }
}

fn is_space_char(c: char) -> (r: bool)
    ensures
        r == is_space(c),
{
    let u: u32 = c as u32;
    u == 32 || (9 <= u && u <= 13)
}

/// Split a text into its whitespace-separated words. Empty input (or input
/// of only whitespace) yields no words.
pub fn split_words(s: &str) -> (r: Vec<String>)
    ensures
        r@.map_values(|w: String| w@) =~= spec_split(s@, 0),
{
    let n: usize = s.unicode_len();
    let mut r: Vec<String> = Vec::new();
    let mut i: usize = 0;
    while i < n
        invariant
            i <= n,
            n == s@.len(),
            r@.map_values(|w: String| w@) + spec_split(s@, i as int) =~= spec_split(s@, 0),
        decreases n - i,
    {
        if is_space_char(s.get_char(i)) {
            i = i + 1;
        } else {
            let mut j: usize = i + 1;
            proof {
                lemma_word_end_bounds(s@, i as int);
            }
            while j < n
                invariant
                    i < j <= n,
                    n == s@.len(),
                    word_end(s@, j as int) == word_end(s@, i as int),
                ensures
                    i < j <= n,
                    j as int == word_end(s@, i as int),
                decreases n - j,
            {
                if is_space_char(s.get_char(j)) {
                    break ;
                }
                proof {
                    lemma_word_end_bounds(s@, j as int);
                }
                j = j + 1;
            }
            let word: String = s.substring_char(i, j).to_owned();
            let ghost old_views = r@.map_values(|w: String| w@);
            r.push(word);
            proof {
                assert(r@.map_values(|w: String| w@) =~= old_views + seq![word@]);
                assert(spec_split(s@, i as int) =~= seq![s@.subrange(i as int, j as int)]
                    + spec_split(s@, j as int));
                assert(r@.map_values(|w: String| w@) + spec_split(s@, j as int)
                    =~= spec_split(s@, 0));
            }
            i = j;
        }
    }
    r
}

/// The text of the line made of the words at `s..e`, joined by single spaces.
pub open spec fn joined(words: Seq<Seq<char>>, s: int, e: int) -> Seq<char>
    decreases e - s,
{
    if e <= s {
        Seq::empty()
    } else if e == s + 1 {
        words[s]
    } else {
        joined(words, s, e - 1) + seq![' '] + words[e - 1]
    }
}

/// Join the words at `start..end` into one line of text, single spaces between.
pub fn line_text(words: &Vec<String>, start: usize, end: usize) -> (r: String)
    requires
        start < end <= words@.len(),
    ensures
        r@ == joined(word_views(words@), start as int, end as int),
{
    let ghost views = word_views(words@);
    let mut r: String = words[start].clone();
    let mut i: usize = start + 1;
    while i < end
        invariant
            start < i <= end <= words@.len(),
            views == word_views(words@),
            r@ == joined(views, start as int, i as int),
        decreases end - i,
    {
        r.append(" ");
        r.append(words[i].as_str());
        proof {
            reveal_strlit(" ");
            assert(" "@ =~= seq![' ']);
            assert(r@ == joined(views, start as int, i as int) + seq![' '] + views[i as int]);
        }
        i = i + 1;
    }
    r
}

/// One laid-out line of a cell: its text and the vertical offset of its top
/// edge below the top of the box.
pub struct LaidLine {
    pub text: String,
    pub y: u32,
}

/// The views of a list of words: each word as its sequence of characters.
pub open spec fn word_views(words: Seq<String>) -> Seq<Seq<char>> {
    words.map_values(|w: String| w@)
}

/// The laid-out lines `r` are exactly the wrapped spans of the given words,
/// each joined into its line text and placed at its span's vertical offset.
pub open spec fn wrapped_lines_ok(
    r: Seq<LaidLine>,
    words: Seq<Seq<char>>,
    widths: Seq<u32>,
    m: FontMetrics,
    max_w: u32,
    max_h: u32,
) -> bool {
    let spans = spec_wrap(widths, m.space_width, m.line_height, max_w, max_h, 0, 0);
    &&& r.len() == spans.len()
    &&& forall|i: int|
        0 <= i < spans.len() ==> (#[trigger] r[i].y) == spans[i].y && r[i].text@ == joined(
            words,
            spans[i].start as int,
            spans[i].end as int,
        )
}

/// Wrap a cell's text (already split into words, each with its measured
/// advance width) into lines that fit the box: greedy wrap in `max_w`,
/// silent truncation past `max_h`.
pub fn wrap_text(
    words: &Vec<String>,
    widths: &Vec<u32>,
    m: FontMetrics,
    max_w: u32,
    max_h: u32,
) -> (r: Vec<LaidLine>)
    requires
        widths@.len() == words@.len(),
    ensures
        wrapped_lines_ok(r@, word_views(words@), widths@, m, max_w, max_h),
{
    let ghost views = word_views(words@);
    let n_words: usize = widths.len();
    let spans = wrap_spans(widths, m.space_width, m.line_height, max_w, max_h);
    proof {
        assert(widths@.len() == n_words);
        lemma_wrap_structure(widths@, m.space_width, m.line_height, max_w, max_h, 0, 0);
    }
    let mut r: Vec<LaidLine> = Vec::new();
    let mut i: usize = 0;
    while i < spans.len()
        invariant
            i <= spans@.len(),
            widths@.len() == words@.len(),
            views == word_views(words@),
            spans@ == spec_wrap(widths@, m.space_width, m.line_height, max_w, max_h, 0, 0),
            forall|j: int|
                0 <= j < spans@.len() ==> (#[trigger] spans@[j].start) < spans@[j].end
                    <= widths@.len(),
            r@.len() == i,
            forall|j: int|
                0 <= j < i ==> (#[trigger] r@[j].y) == spans@[j].y && r@[j].text@ == joined(
                    views,
                    spans@[j].start as int,
                    spans@[j].end as int,
                ),
        decreases spans@.len() - i,
    {
        let sp = spans[i];
        let text = line_text(words, sp.start, sp.end);
        r.push(LaidLine { text, y: sp.y });
        i = i + 1;
    }
    r
}

} // verus!
