use duanzhang::charset::build_charset;
use duanzhang::names::{sorted_unique, str_lt};
use duanzhang::preset::Preset;
use duanzhang::report::{
    block_names, coverage, font_report, glyph_ids, parsed_names, report_from, windows_name, NameRecord, ReportError, WINDOWS_PLATFORM,
};

fn rec(platform_id: u16, name_id: u16, value: Option<&str>) -> NameRecord {
    NameRecord {
        platform_id,
        language: "English United States".to_string(),
        name_id,
        value: value.map(|v| v.to_string()),
    }
}

#[test]
fn family_and_subfamily_come_from_windows_records() {
    let recs = vec![
        rec(1, 1, Some("Mac Family")),
        rec(WINDOWS_PLATFORM, 1, Some("Sample Family")),
        rec(WINDOWS_PLATFORM, 2, Some("Regular")),
    ];
    let names = parsed_names(&recs);
    assert_eq!(format!("Family Name:      {}", names.family), "Family Name:      Sample Family");
    assert_eq!(format!("Subfamily Name:   {}", names.subfamily), "Subfamily Name:   Regular");
    assert_eq!(names.version, "");
    assert_eq!(names.copyright, "");
}

#[test]
fn missing_or_undecodable_names_are_empty() {
    let recs = vec![rec(WINDOWS_PLATFORM, 4, None), rec(WINDOWS_PLATFORM, 4, Some("Later"))];
    assert_eq!(windows_name(&recs, 4), "");
    assert_eq!(windows_name(&recs, 1), "");
    assert_eq!(windows_name(&vec![], 0), "");
}

#[test]
fn identifier_fields_are_escaped() {
    let recs = vec![
        rec(WINDOWS_PLATFORM, 0, Some("\u{a9} 2020\tX")),
        rec(WINDOWS_PLATFORM, 3, Some("id\n1")),
        rec(WINDOWS_PLATFORM, 4, Some("Full \"Name\"")),
        rec(WINDOWS_PLATFORM, 5, Some("Version 1.0")),
        rec(WINDOWS_PLATFORM, 1, Some("Fam\tily")),
    ];
    let names = parsed_names(&recs);
    assert_eq!(names.copyright, "\\u{a9} 2020\\tX");
    assert_eq!(names.unique_id, "id\\n1");
    assert_eq!(names.full_name, "Full \\\"Name\\\"");
    assert_eq!(names.version, "Version 1.0");
    assert_eq!(names.family, "Fam\tily");
}

#[test]
fn coverage_skips_notdef_and_invalid_code_points() {
    let maps = vec![(0x41, 3), (0x42, 0), (0xD800, 5), (0x41, 4), (0x4E2D, 9), (0x110000, 1)];
    let set = coverage(&maps);
    assert_eq!(set.code_points(), vec![0x41, 0x4E2D]);
}

#[test]
fn block_names_are_sorted_and_unique() {
    let maps = vec![(0x4E2D, 1), (0xE9, 1), (0x41, 1), (0x42, 1), (0x4E00, 1)];
    let set = coverage(&maps);
    assert_eq!(
        block_names(&set),
        vec!["Basic Latin".to_string(), "CJK Unified Ideographs".to_string(), "Latin-1 Supplement".to_string()]
    );
}

#[test]
fn unclassified_code_points_are_skipped() {
    let set = coverage(&vec![(0xE0080, 1), (0x41, 1)]);
    assert_eq!(block_names(&set), vec!["Basic Latin".to_string()]);
}

#[test]
fn ascii_subset_reports_two_blocks() {
    let kept = build_charset(&vec![], &vec![Preset::Ascii]);
    let font_supports: Vec<u32> = vec![0x20, 0x41, 0xE9, 0x3042, 0x4E2D];
    let maps: Vec<(u32, u16)> = font_supports
        .iter()
        .filter(|cp| kept.contains(**cp))
        .map(|cp| (*cp, 1u16))
        .collect();
    let set = coverage(&maps);
    assert_eq!(set.code_points().len(), 3);
    assert_eq!(block_names(&set), vec!["Basic Latin".to_string(), "Latin-1 Supplement".to_string()]);
}

#[test]
fn sorting_removes_duplicates() {
    let v = vec!["b".to_string(), "a".to_string(), "b".to_string(), "ab".to_string(), "".to_string()];
    assert_eq!(
        sorted_unique(&v),
        vec!["".to_string(), "a".to_string(), "ab".to_string(), "b".to_string()]
    );
    assert!(str_lt("Hangul", "Hiragana"));
    assert!(!str_lt("b", "a"));
    assert!(!str_lt("a", "a"));
    assert!(str_lt("a", "ab"));
}

#[test]
fn report_gathers_names_coverage_and_blocks() {
    let recs = vec![rec(WINDOWS_PLATFORM, 1, Some("Sample Family")), rec(WINDOWS_PLATFORM, 2, Some("Regular"))];
    let rep = report_from(recs, vec![(0x61, 2), (0x3042, 7), (0x62, 0)]);
    assert_eq!(rep.names.family, "Sample Family");
    assert_eq!(rep.names.subfamily, "Regular");
    assert_eq!(rep.covered, vec![0x61, 0x3042]);
    assert_eq!(rep.blocks, vec!["Basic Latin".to_string(), "Hiragana".to_string()]);
    assert_eq!(rep.records.len(), 2);
}

#[test]
fn malformed_font_is_an_error() {
    assert!(matches!(font_report(&[0u8, 1, 2, 3]), Err(ReportError::Malformed(_))));
    assert!(font_report(&[]).is_err());
}

#[test]
fn absent_glyphs_become_notdef() {
    let ids = glyph_ids(&vec![(0x41, Some(5)), (0x42, None), (0x43, Some(0))]);
    assert_eq!(ids, vec![(0x41, 5), (0x42, 0), (0x43, 0)]);
    assert_eq!(coverage(&ids).code_points(), vec![0x41]);
}
