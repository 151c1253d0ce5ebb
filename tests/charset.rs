use duanzhang::charset::{build_charset, CharSet};
use duanzhang::preset::{blocks_of_presets, preset_blocks, Block, Preset};

const ALL_PRESETS: [Preset; 8] = [
    Preset::Recommended,
    Preset::Punctuation,
    Preset::Symbols,
    Preset::Bopomofo,
    Preset::CJKUnifiedIdeographs,
    Preset::Kana,
    Preset::Hangul,
    Preset::Ascii,
];

fn preset_set(p: Preset) -> Vec<u32> {
    build_charset(&vec![], &vec![p]).code_points()
}

fn literal_ranges(p: Preset) -> Vec<u32> {
    let mut v: Vec<u32> = Vec::new();
    for b in preset_blocks(p) {
        let ub = outside_block(b);
        for cp in ub.start()..=ub.end() {
            v.push(cp);
        }
    }
    v.sort();
    v.dedup();
    v
}

fn outside_block(b: Block) -> unicode_blocks::UnicodeBlock {
    match b {
        Block::Arrows => unicode_blocks::ARROWS,
        Block::BasicLatin => unicode_blocks::BASIC_LATIN,
        Block::BlockElements => unicode_blocks::BLOCK_ELEMENTS,
        Block::Bopomofo => unicode_blocks::BOPOMOFO,
        Block::CjkCompatibilityForms => unicode_blocks::CJK_COMPATIBILITY_FORMS,
        Block::CjkSymbolsAndPunctuation => unicode_blocks::CJK_SYMBOLS_AND_PUNCTUATION,
        Block::CjkUnifiedIdeographs => unicode_blocks::CJK_UNIFIED_IDEOGRAPHS,
        Block::GeneralPunctuation => unicode_blocks::GENERAL_PUNCTUATION,
        Block::HalfwidthAndFullwidthForms => unicode_blocks::HALFWIDTH_AND_FULLWIDTH_FORMS,
        Block::Hiragana => unicode_blocks::HIRAGANA,
        Block::Katakana => unicode_blocks::KATAKANA,
        Block::Latin1Supplement => unicode_blocks::LATIN_1_SUPPLEMENT,
        Block::VerticalForms => unicode_blocks::VERTICAL_FORMS,
        Block::HangulJamo => unicode_blocks::HANGUL_JAMO,
        Block::HangulSyllables => unicode_blocks::HANGUL_SYLLABLES,
    }
}

#[test]
fn ascii_preset_is_basic_latin_and_latin1() {
    assert_eq!(preset_blocks(Preset::Ascii), vec![Block::BasicLatin, Block::Latin1Supplement]);
    let cps = preset_set(Preset::Ascii);
    assert_eq!(cps, (0u32..=255).collect::<Vec<u32>>());
}

#[test]
fn recommended_preset_has_fifteen_blocks() {
    assert_eq!(preset_blocks(Preset::Recommended).len(), 15);
    for p in ALL_PRESETS {
        assert!(!preset_blocks(p).is_empty());
    }
}

#[test]
fn preset_expansion_equals_union_of_literal_ranges() {
    for p in ALL_PRESETS {
        let cps = preset_set(p);
        assert_eq!(cps, literal_ranges(p));
        for cp in cps {
            assert!(char::from_u32(cp).is_some());
        }
    }
}

#[test]
fn preset_ranges_include_both_endpoints() {
    let cps = preset_set(Preset::Symbols);
    assert!(cps.contains(&0x2190));
    assert!(cps.contains(&0x21FF));
    assert!(cps.contains(&0x2580));
    assert!(cps.contains(&0x259F));
    assert!(!cps.contains(&0x2200));
    assert!(!cps.contains(&0x218F));
    assert_eq!(cps.len(), 0x70 + 0x20);
}

#[test]
fn hangul_syllables_stop_before_surrogates() {
    let cps = preset_set(Preset::Hangul);
    assert_eq!(*cps.last().unwrap(), 0xD7AF);
    assert_eq!(cps.len(), 256 + 11184);
}

#[test]
fn surrogates_are_rejected() {
    let mut s = CharSet::new();
    assert!(!s.insert_code_point(0xD800));
    assert!(!s.insert_code_point(0xDFFF));
    assert!(!s.insert_code_point(0x110000));
    assert!(s.insert_code_point(0x10FFFF));
    s.insert_range(0xD7FF, 0xE000);
    assert_eq!(s.code_points(), vec![0xD7FF, 0xE000, 0x10FFFF]);
}

#[test]
fn empty_range_adds_nothing() {
    let mut s = CharSet::new();
    s.insert_range(10, 9);
    assert!(s.code_points().is_empty());
    s.insert_range(u32::MAX, u32::MAX);
    assert!(s.code_points().is_empty());
}

#[test]
fn union_ignores_order_and_repetition() {
    let a: Vec<char> = "hello".chars().collect();
    let b: Vec<char> = "world!".chars().collect();
    let one = build_charset(&vec![a.clone(), b.clone()], &vec![Preset::Kana, Preset::Bopomofo]);
    let two = build_charset(&vec![b.clone(), a.clone(), b], &vec![Preset::Bopomofo, Preset::Kana, Preset::Kana]);
    assert_eq!(one.code_points(), two.code_points());
}

#[test]
fn reinserting_a_member_changes_nothing() {
    let mut s = CharSet::new();
    s.insert_char('x');
    let before = s.code_points();
    s.insert_char('x');
    assert!(s.insert_code_point('x' as u32));
    assert_eq!(s.code_points(), before);
    assert!(s.contains('x' as u32));
    assert!(!s.contains('y' as u32));
}

#[test]
fn text_characters_are_kept_deduplicated_and_sorted() {
    let t: Vec<char> = "bab\u{4E2D}a".chars().collect();
    let s = build_charset(&vec![t], &vec![]);
    assert_eq!(s.to_chars(), vec!['a', 'b', '\u{4E2D}']);
}

#[test]
fn overlapping_presets_count_once() {
    let both = build_charset(&vec![], &vec![Preset::Ascii, Preset::Recommended]);
    let rec = build_charset(&vec![], &vec![Preset::Recommended]);
    assert_eq!(both.code_points(), rec.code_points());
}

#[test]
fn text_inside_preset_ranges_changes_nothing() {
    let inside: Vec<char> = "Hello, caf\u{e9}!".chars().collect();
    let base = build_charset(&vec![], &vec![Preset::Ascii]);
    let more = build_charset(&vec![inside.clone()], &vec![Preset::Ascii]);
    assert_eq!(base.code_points(), more.code_points());
    let twice = build_charset(&vec![inside.clone(), inside], &vec![Preset::Ascii, Preset::Ascii]);
    assert_eq!(base.code_points(), twice.code_points());
}

#[test]
fn preset_block_lists_are_concatenated_with_repeats() {
    assert_eq!(
        blocks_of_presets(&vec![Preset::Kana, Preset::Ascii, Preset::Kana]),
        vec![Block::Hiragana, Block::Katakana, Block::BasicLatin, Block::Latin1Supplement, Block::Hiragana, Block::Katakana]
    );
    assert!(blocks_of_presets(&vec![]).is_empty());
}
