use bingo_board::errors::RenderError;
use bingo_board::layout::FontMetrics;
use bingo_board::locator::choose_discovered;
use bingo_board::locator::font_asset;
use bingo_board::locator::pick_best_scored;
use bingo_board::locator::preferred_match;
use bingo_board::locator::resolve_override;
use bingo_board::locator::select_by_coverage;
use bingo_board::locator::str_eq_ci;

#[test]
fn override_failure_is_font_not_found_without_discovery() {
    // A configured override that could not be read fails outright.
    assert!(matches!(resolve_override(None), Err(RenderError::FontNotFound)));
    // An override pointing at a non-font file fails the same way; the
    // resolution consults nothing but the loaded bytes.
    let not_a_font = b"just some text, not a font".to_vec();
    assert!(matches!(resolve_override(Some(not_a_font)), Err(RenderError::FontNotFound)));
}

#[test]
fn unparseable_font_data_is_rejected() {
    let m = FontMetrics { ascent: 10, line_height: 12, space_width: 4 };
    let r = font_asset(vec![0, 1, 2, 3], m);
    assert!(matches!(r, Err(RenderError::FontNotFound)));
}

#[test]
fn case_insensitive_ascii_comparison() {
    assert!(str_eq_ci("TtF", "ttf"));
    assert!(str_eq_ci("ARIAL", "arial"));
    assert!(str_eq_ci("", ""));
    assert!(!str_eq_ci("ttf", "otf"));
    assert!(!str_eq_ci("ttf", "ttff"));
    assert!(!str_eq_ci("a_b", "a-b"));
}

#[test]
fn preferred_name_order_beats_file_order() {
    // "Helvetica" comes before "Arial" in the file list, but "Arial" comes
    // first in the preference list, so the Arial file wins.
    let stems = vec!["helvetica".to_string(), "arial".to_string()];
    assert_eq!(preferred_match(&stems), Some(1));
    // First matching file wins within one name.
    let stems2 = vec!["notes.txt".to_string(), "ARIAL".to_string(), "Arial".to_string()];
    assert_eq!(preferred_match(&stems2), Some(1));
    // No stem matches any preferred name.
    let stems3 = vec!["ComicNeue".to_string(), "unrelated".to_string()];
    assert_eq!(preferred_match(&stems3), None);
}

#[test]
fn best_score_keeps_the_first_maximum() {
    let ok = vec![true, true, true];
    assert_eq!(pick_best_scored(&ok, &vec![3, 5, 5]), Some(1));
    assert_eq!(pick_best_scored(&ok, &vec![7, 5, 5]), Some(0));
    let none_ok = vec![false, false];
    assert_eq!(pick_best_scored(&none_ok, &vec![1, 2]), None);
    let mixed = vec![false, true, false, true];
    assert_eq!(pick_best_scored(&mixed, &vec![9, 2, 9, 2]), Some(1));
}

#[test]
fn scoring_pass_rejects_unparseable_candidates() {
    let candidates = vec![vec![0u8, 1, 2], b"nonsense".to_vec()];
    assert_eq!(select_by_coverage(&candidates), None);
}

#[test]
fn discovery_prefers_names_then_falls_back_to_scoring() {
    let stems = vec!["something".to_string(), "DejaVuSans".to_string()];
    let datas = vec![vec![0u8], vec![1u8]];
    // The name pass decides without parsing anything.
    assert_eq!(choose_discovered(&stems, &datas), Some(1));
    // Without a name match, scoring runs; no candidate parses here.
    let stems2 = vec!["something".to_string()];
    let datas2 = vec![vec![0u8]];
    assert_eq!(choose_discovered(&stems2, &datas2), None);
}

#[test]
fn error_messages_name_the_failure() {
    assert_eq!(RenderError::FontNotFound.message(), "no usable font found");
    assert_eq!(
        RenderError::DimensionMismatch.message(),
        "elements length must match board size squared"
    );
}

/// Smallest byte buffer the font parser accepts: an sfnt directory with the
/// three required tables (head, hhea, maxp) and no character map, so every
/// code point resolves to ".notdef".
fn minimal_font_bytes() -> Vec<u8> {
    let mut d: Vec<u8> = Vec::new();
    d.extend_from_slice(&0x00010000u32.to_be_bytes());
    d.extend_from_slice(&3u16.to_be_bytes());
    d.extend_from_slice(&[0u8; 6]);
    let recs: [([u8; 4], u32, u32); 3] =
        [(*b"head", 60, 54), (*b"hhea", 114, 36), (*b"maxp", 150, 6)];
    for (tag, off, len) in recs {
        d.extend_from_slice(&tag);
        d.extend_from_slice(&0u32.to_be_bytes());
        d.extend_from_slice(&off.to_be_bytes());
        d.extend_from_slice(&len.to_be_bytes());
    }
    let mut head = vec![0u8; 54];
    head[18..20].copy_from_slice(&1000u16.to_be_bytes());
    d.extend_from_slice(&head);
    let mut hhea = vec![0u8; 36];
    hhea[4..6].copy_from_slice(&800i16.to_be_bytes());
    hhea[6..8].copy_from_slice(&(-200i16).to_be_bytes());
    d.extend_from_slice(&hhea);
    d.extend_from_slice(&0x00005000u32.to_be_bytes());
    d.extend_from_slice(&1u16.to_be_bytes());
    d
}

#[test]
fn parseable_font_data_is_accepted() {
    let font = minimal_font_bytes();
    // The override branch accepts bytes that parse as a font.
    assert_eq!(resolve_override(Some(font.clone())), Ok(font.clone()));
    let m = FontMetrics { ascent: 10, line_height: 12, space_width: 4 };
    let asset = font_asset(font.clone(), m).expect("parseable data is accepted");
    assert_eq!(asset.data, font);
}

#[test]
fn scoring_pass_keeps_the_parseable_candidate() {
    // One candidate is noise, one parses (with an empty character map, so
    // its coverage is zero): the parseable one is picked.
    let candidates = vec![b"not a font at all".to_vec(), minimal_font_bytes()];
    assert_eq!(select_by_coverage(&candidates), Some(1));
    let stems = vec!["mystery1".to_string(), "mystery2".to_string()];
    assert_eq!(choose_discovered(&stems, &candidates), Some(1));
}
