//! Font locator decisions: an explicit override takes absolute precedence
//! over host discovery; discovered candidates are tried by well-known family
//! name first, then by printable-ASCII glyph-coverage score. The surrounding
//! application walks the host's font directories and reads the files; this
//! module holds every decision, and the calls into the font parser.

use crate::errors::RenderError;
use crate::layout::FontMetrics;
use vstd::prelude::*;

verus! {

#[verifier::external_type_specification]
#[verifier::external_body]
pub struct ExFont<'a>(rusttype::Font<'a>);

/// Whether a byte buffer parses as a font: a function of the bytes alone.
pub uninterp spec fn font_parseable(data: Seq<u8>) -> bool;

/// Relies on rusttype::Font::try_from_bytes: parses font data, `None` for
/// invalid data; the outcome depends on the bytes alone.
#[verifier::external_body]
fn parse_font<'a>(data: &'a Vec<u8>) -> (r: Option<rusttype::Font<'a>>)
    ensures
        r.is_some() == font_parseable(data@),
{
    rusttype::Font::try_from_bytes(data)
}

/// The glyph id a font file's character map gives a code point, with the
/// ".notdef" id 0 both for absent code points and for bytes that are no
/// font: a function of the bytes and the code point alone.
pub uninterp spec fn glyph_index_of(data: Seq<u8>, c: char) -> u16;

/// Relies on rusttype::Font::try_from_bytes and on the `char` impl of
/// rusttype::IntoGlyphId: the character-map lookup, which maps an absent code
/// point to the ".notdef" id 0 and never panics (unlike `Font::glyph`, which
/// asserts the id against the glyph count).
#[verifier::external_body]
fn glyph_index(data: &Vec<u8>, c: char) -> (r: u16)
    ensures
        r == glyph_index_of(data@, c),
{
    match rusttype::Font::try_from_bytes(data) {
        Some(font) => rusttype::IntoGlyphId::into_glyph_id(c, &font).0,
        None => 0,
    }
}

/// How many code points from `c` through 0x7E resolve to a glyph other than
/// ".notdef" in the font the bytes describe.
pub open spec fn covered_from(data: Seq<u8>, c: int) -> int
    decreases 127 - c,
{
    if c < 32 || c > 126 {
        0
    } else {
        (if glyph_index_of(data, (c as u8) as char) != 0 {
            1int
        } else {
            0int
        }) + covered_from(data, c + 1)
    }
}

/// Printable-ASCII coverage score of a candidate font file: how many of the
/// code points 0x20 through 0x7E its character map resolves to a glyph other
/// than ".notdef".
pub open spec fn spec_coverage(data: Seq<u8>) -> int {
    covered_from(data, 32)
}

/// Measure a candidate's printable-ASCII coverage score.
fn ascii_coverage(data: &Vec<u8>) -> (r: u32)
    ensures
        r == spec_coverage(data@),
{
    let mut score: u32 = 0;
    let mut c: u8 = 32;
    while c <= 126
        invariant
            32 <= c <= 127,
            score <= c - 32,
            score + covered_from(data@, c as int) == spec_coverage(data@),
        decreases 127 - c,
    {
        let ch: char = c as char;
        proof {
            assert(((c as int) as u8) as char == ch);
        }
        if glyph_index(data, ch) != 0 {
            score = score + 1;
        }
        c = c + 1;
    }
    score
}

/// ASCII-case-insensitive character equality: equal outright, or the same
/// letter in the two cases (upper-case letters sit 32 below their lower case).
pub open spec fn chars_eq_ci(a: char, b: char) -> bool {
    ||| a == b
    ||| (65 <= a as int <= 90 && b as int == a as int + 32)
    ||| (65 <= b as int <= 90 && a as int == b as int + 32)
}

/// ASCII-case-insensitive text equality, character by character.
pub open spec fn text_eq_ci(a: Seq<char>, b: Seq<char>) -> bool {
    a.len() == b.len() && forall|i: int| 0 <= i < a.len() ==> chars_eq_ci(a[i], b[i])
}

fn char_eq_ci(a: char, b: char) -> (r: bool)
    ensures
        r == chars_eq_ci(a, b),
{
    let au: u32 = a as u32;
    let bu: u32 = b as u32;
    au == bu || (65 <= au && au <= 90 && bu == au + 32) || (65 <= bu && bu <= 90 && au == bu
        + 32)
}

/// Compare two texts ignoring ASCII letter case.
pub fn str_eq_ci(a: &str, b: &str) -> (r: bool)
    ensures
        r == text_eq_ci(a@, b@),
{
    let an: usize = a.unicode_len();
    let bn: usize = b.unicode_len();
    if an != bn {
        return false;
    }
    let mut i: usize = 0;
    while i < an
        invariant
            i <= an,
            an == a@.len() == b@.len(),
            forall|j: int| 0 <= j < i ==> chars_eq_ci(a@[j], b@[j]),
        decreases an - i,
    {
        if !char_eq_ci(a.get_char(i), b.get_char(i)) {
            return false;
        }
        i = i + 1;
    }
    true
}

/// The well-known font family names tried first, in preference order.
pub open spec fn spec_preferred_names() -> Seq<Seq<char>> {
    seq![
        "Arial"@,
        "Helvetica"@,
        "DejaVuSans"@,
        "LiberationSans"@,
        "SegoeUI"@,
        "Segoe UI"@,
        "NotoSans-Regular"@,
        "NotoSans"@,
        "Cantarell-Regular"@,
    ]
}

/// The well-known font family names, as checked against file stems.
pub fn preferred_names() -> (r: Vec<&'static str>)
    ensures
        r@.len() == spec_preferred_names().len(),
        forall|i: int| 0 <= i < r@.len() ==> (#[trigger] r@[i])@ == spec_preferred_names()[i],
{
    let mut r: Vec<&'static str> = Vec::new();
    r.push("Arial");
    r.push("Helvetica");
    r.push("DejaVuSans");
    r.push("LiberationSans");
    r.push("SegoeUI");
    r.push("Segoe UI");
    r.push("NotoSans-Regular");
    r.push("NotoSans");
    r.push("Cantarell-Regular");
    r
}

/// File stem `j` matches preferred name `k`, ignoring ASCII case.
pub open spec fn stem_matches(stems: Seq<String>, j: int, k: int) -> bool {
    text_eq_ci(stems[j]@, spec_preferred_names()[k])
}

/// First stem that matches `name`, ignoring ASCII case.
fn find_stem(stems: &Vec<String>, name: &str) -> (r: Option<usize>)
    ensures
        match r {
            Some(j) => j < stems@.len() && text_eq_ci(stems@[j as int]@, name@) && forall|
                j2: int,
            | 0 <= j2 < j ==> !text_eq_ci(stems@[j2]@, name@),
            None => forall|j2: int| 0 <= j2 < stems@.len() ==> !text_eq_ci(stems@[j2]@, name@),
        },
{
    let mut j: usize = 0;
    while j < stems.len()
        invariant
            j <= stems@.len(),
            forall|j2: int| 0 <= j2 < j ==> !text_eq_ci(stems@[j2]@, name@),
        decreases stems@.len() - j,
    {
        if str_eq_ci(stems[j].as_str(), name) {
            return Some(j);
        }
        j = j + 1;
    }
    None
}

/// Stem `j` is the winner of the name-preference pass: it matches some
/// preferred name `k`, no earlier stem matches that name, and no stem at all
/// matches an earlier name.
pub open spec fn preferred_pick_ok(stems: Seq<String>, j: int) -> bool {
    exists|k: int|
        0 <= k < spec_preferred_names().len() && #[trigger] stem_matches(stems, j, k) && (
        forall|j2: int| 0 <= j2 < j ==> !stem_matches(stems, j2, k)) && (forall|
            k2: int,
            j2: int,
        | 0 <= k2 < k && 0 <= j2 < stems.len() ==> !stem_matches(stems, j2, k2))
}

/// No file stem matches any preferred name.
pub open spec fn no_preferred_match(stems: Seq<String>) -> bool {
    forall|k: int, j: int|
        0 <= k < spec_preferred_names().len() && 0 <= j < stems.len() ==> !stem_matches(
            stems,
            j,
            k,
        )
}

/// Name-preference pass: the first preferred name (in list order) that some
/// file stem matches case-insensitively wins, and within that name the first
/// matching file wins.
pub fn preferred_match(stems: &Vec<String>) -> (r: Option<usize>)
    ensures
        match r {
            Some(j) => j < stems@.len() && preferred_pick_ok(stems@, j as int),
            None => no_preferred_match(stems@),
        },
{
    let names = preferred_names();
    let mut k: usize = 0;
    while k < names.len()
        invariant
            k <= names@.len(),
            names@.len() == spec_preferred_names().len(),
            forall|i: int| 0 <= i < names@.len() ==> (#[trigger] names@[i])@
                == spec_preferred_names()[i],
            forall|k2: int, j2: int|
                0 <= k2 < k && 0 <= j2 < stems@.len() ==> !stem_matches(stems@, j2, k2),
        decreases names@.len() - k,
    {
        match find_stem(stems, names[k]) {
            Some(j) => {
                proof {
                    assert(names@[k as int]@ == spec_preferred_names()[k as int]);
                    assert(stem_matches(stems@, j as int, k as int));
                    assert(forall|j2: int| 0 <= j2 < j ==> !stem_matches(stems@, j2, k as int));
                }
                return Some(j);
            },
            None => {
                proof {
                    assert(forall|j2: int| 0 <= j2 < stems@.len()
                        ==> !stem_matches(stems@, j2, k as int));
                }
            },
        }
        k = k + 1;
    }
    None
}

/// The first index whose score no other accepted candidate beats: later equal
/// scores do not displace an earlier best.
pub fn pick_best_scored(ok: &Vec<bool>, scores: &Vec<u32>) -> (r: Option<usize>)
    requires
        ok@.len() == scores@.len(),
    ensures
        match r {
            Some(i) => i < ok@.len() && ok@[i as int] && (forall|j: int|
                0 <= j < ok@.len() && ok@[j] ==> scores@[j] <= scores@[i as int]) && (forall|
                j: int,
            | 0 <= j < i && ok@[j] ==> scores@[j] < scores@[i as int]),
            None => forall|j: int| 0 <= j < ok@.len() ==> !ok@[j],
        },
{
    let mut best: usize = 0;
    let mut found: bool = false;
    let mut j: usize = 0;
    while j < ok.len()
        invariant
            j <= ok@.len(),
            ok@.len() == scores@.len(),
            !found ==> forall|i: int| 0 <= i < j ==> !ok@[i],
            found ==> best < j && ok@[best as int],
            found ==> forall|i: int| 0 <= i < j && ok@[i] ==> scores@[i] <= scores@[
                best as int],
            found ==> forall|i: int| 0 <= i < best && ok@[i] ==> scores@[i] < scores@[
                best as int],
        decreases ok@.len() - j,
    {
        if ok[j] && (!found || scores[j] > scores[best]) {
            best = j;
            found = true;
        }
        j = j + 1;
    }
    if found {
        Some(best)
    } else {
        None
    }
}

/// The candidate at `i` wins the coverage-scoring pass: it parses as a font,
/// no parseable candidate has a higher printable-ASCII coverage score, and
/// every earlier parseable candidate scores strictly lower (the earliest of
/// the best keeps its place on ties).
pub open spec fn coverage_pick_ok(candidates: Seq<Vec<u8>>, i: int) -> bool {
    &&& font_parseable(candidates[i]@)
    &&& forall|j: int|
        0 <= j < candidates.len() && font_parseable(candidates[j]@) ==> spec_coverage(
            #[trigger] candidates[j]@,
        ) <= spec_coverage(candidates[i]@)
    &&& forall|j: int|
        0 <= j < i && font_parseable(candidates[j]@) ==> spec_coverage(
            #[trigger] candidates[j]@,
        ) < spec_coverage(candidates[i]@)
}

/// Coverage-scoring pass over candidate font files: parse each, score its
/// printable-ASCII coverage, keep the first highest-scoring candidate that
/// parsed. `None` exactly when no candidate parses as a font.
pub fn select_by_coverage(candidates: &Vec<Vec<u8>>) -> (r: Option<usize>)
    ensures
        match r {
            Some(i) => i < candidates@.len() && coverage_pick_ok(candidates@, i as int),
            None => forall|i: int|
                0 <= i < candidates@.len() ==> !font_parseable(candidates@[i]@),
        },
{
    let mut ok: Vec<bool> = Vec::new();
    let mut scores: Vec<u32> = Vec::new();
    let mut i: usize = 0;
    while i < candidates.len()
        invariant
            i <= candidates@.len(),
            ok@.len() == i,
            scores@.len() == i,
            forall|j: int| 0 <= j < i ==> ok@[j] == font_parseable(candidates@[j]@),
            forall|j: int|
                0 <= j < i && ok@[j] ==> scores@[j] == spec_coverage(#[trigger] candidates@[j]@),
        decreases candidates@.len() - i,
    {
        let parses = match parse_font(&candidates[i]) {
            Some(_font) => true,
            None => false,
        };
        if parses {
            let s = ascii_coverage(&candidates[i]);
            ok.push(true);
            scores.push(s);
        } else {
            ok.push(false);
            scores.push(0);
        }
        i = i + 1;
    }
    let picked = pick_best_scored(&ok, &scores);
    proof {
        match picked {
            Some(p) => {
                assert(ok@[p as int] == font_parseable(candidates@[p as int]@));
                assert(scores@[p as int] == spec_coverage(candidates@[p as int]@));
                assert forall|j: int|
                    0 <= j < candidates@.len() && font_parseable(candidates@[j]@) implies
                    spec_coverage(#[trigger] candidates@[j]@) <= spec_coverage(
                    candidates@[p as int]@) by {
                    assert(ok@[j] && scores@[j] == spec_coverage(candidates@[j]@));
                }
                assert forall|j: int|
                    0 <= j < p && font_parseable(candidates@[j]@) implies spec_coverage(
                    #[trigger] candidates@[j]@) < spec_coverage(candidates@[p as int]@) by {
                    assert(ok@[j] && scores@[j] == spec_coverage(candidates@[j]@));
                }
            },
            None => {
                assert forall|j: int| 0 <= j < candidates@.len() implies !font_parseable(
                    candidates@[j]@,
                ) by {
                    assert(!ok@[j]);
                }
            },
        }
    }
    picked
}

/// Discovery decision over the gathered candidates (parallel lists: each
/// file's stem and its bytes): the name-preference pass decides first; only
/// when no stem matches any preferred name does the coverage-scoring pass
/// decide. `None` exactly when neither pass picks a file.
pub fn choose_discovered(stems: &Vec<String>, datas: &Vec<Vec<u8>>) -> (r: Option<usize>)
    requires
        stems@.len() == datas@.len(),
    ensures
        match r {
            Some(i) => i < datas@.len() && (preferred_pick_ok(stems@, i as int) || (
            no_preferred_match(stems@) && coverage_pick_ok(datas@, i as int))),
            None => no_preferred_match(stems@) && (forall|i: int|
                0 <= i < datas@.len() ==> !font_parseable(datas@[i]@)),
        },
{
    match preferred_match(stems) {
        Some(j) => Some(j),
        None => select_by_coverage(datas),
    }
}

/// A usable font: its raw bytes, checked to parse, and its derived integer
/// metrics at the chosen pixel size, as the application computes them from
/// the parsed font.
pub struct FontAsset {
    pub data: Vec<u8>,
    pub metrics: FontMetrics,
}

/// Check that the bytes parse as a font and bundle them with their metrics;
/// data that does not parse is a font-location failure.
pub fn font_asset(data: Vec<u8>, metrics: FontMetrics) -> (r: Result<FontAsset, RenderError>)
    ensures
        match r {
            Ok(a) => a.data@ == data@ && a.metrics == metrics && font_parseable(data@),
            Err(e) => e == RenderError::FontNotFound && !font_parseable(data@),
        },
{
    let parsed_ok = match parse_font(&data) {
        Some(_f) => true,
        None => false,
    };
    if parsed_ok {
        Ok(FontAsset { data, metrics })
    } else {
        Err(RenderError::FontNotFound)
    }
}

/// Outcome of the override branch: the bytes the application loaded from the
/// configured override path, or `None` when the path could not be read. The
/// override takes absolute precedence: an unreadable or unparseable override
/// fails font location outright, and discovery is never attempted after it.
pub fn resolve_override(loaded: Option<Vec<u8>>) -> (r: Result<Vec<u8>, RenderError>)
    ensures
        match r {
            Ok(d) => loaded == Some(d) && font_parseable(d@),
            Err(e) => e == RenderError::FontNotFound && (loaded matches Some(d)
                ==> !font_parseable(d@)),
        },
{
    match loaded {
        Some(data) => {
            let parsed_ok = match parse_font(&data) {
                Some(_f) => true,
                None => false,
            };
            if parsed_ok {
                Ok(data)
            } else {
                Err(RenderError::FontNotFound)
            }
        },
        None => Err(RenderError::FontNotFound),
    }
}

} // verus!
