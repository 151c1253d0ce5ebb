//! Presets: named bundles of Unicode blocks, and the blocks they use.
use vstd::prelude::*;
use unicode_blocks as ub;

verus! {

/// A named character repertoire that a subset request can ask for.
#[derive(Debug, Clone, Copy, PartialEq, Eq, Structural)]
pub enum Preset {
    /// All CJK unified ideographs, punctuation, kana, hangul, bopomofo,
    /// block elements and ASCII.
    Recommended,
    /// CJK symbols and punctuation.
    Punctuation,
    /// Common symbols.
    Symbols,
    /// Bopomofo.
    Bopomofo,
    /// All CJK unified ideographs of the basic plane.
    CJKUnifiedIdeographs,
    /// Japanese kana.
    Kana,
    /// Hangul.
    Hangul,
    /// ASCII and Latin-1.
    Ascii,
}

/// The Unicode blocks that some preset refers to.
#[derive(Debug, Clone, Copy, PartialEq, Eq, Structural)]
pub enum Block {
    Arrows,
    BasicLatin,
    BlockElements,
    Bopomofo,
    CjkCompatibilityForms,
    CjkSymbolsAndPunctuation,
    CjkUnifiedIdeographs,
    GeneralPunctuation,
    HalfwidthAndFullwidthForms,
    Hiragana,
    Katakana,
    Latin1Supplement,
    VerticalForms,
    HangulJamo,
    HangulSyllables,
}

/// The inclusive range `(start, end)` of code points of a block, as the
/// Unicode block table gives it.
pub open spec fn block_bounds(b: Block) -> (u32, u32) {
    match b {
        Block::Arrows => (0x2190, 0x21FF),
        Block::BasicLatin => (0x0000, 0x007F),
        Block::BlockElements => (0x2580, 0x259F),
        Block::Bopomofo => (0x3100, 0x312F),
        Block::CjkCompatibilityForms => (0xFE30, 0xFE4F),
        Block::CjkSymbolsAndPunctuation => (0x3000, 0x303F),
        Block::CjkUnifiedIdeographs => (0x4E00, 0x9FFF),
        Block::GeneralPunctuation => (0x2000, 0x206F),
        Block::HalfwidthAndFullwidthForms => (0xFF00, 0xFFEF),
        Block::Hiragana => (0x3040, 0x309F),
        Block::Katakana => (0x30A0, 0x30FF),
        Block::Latin1Supplement => (0x0080, 0x00FF),
        Block::VerticalForms => (0xFE10, 0xFE1F),
        Block::HangulJamo => (0x1100, 0x11FF),
        Block::HangulSyllables => (0xAC00, 0xD7AF),
    }
}

/// Relies on the block constants of `unicode_blocks` and on
/// `UnicodeBlock::start` / `UnicodeBlock::end`, which return the constant's
/// inclusive bounds.
#[verifier::external_body]
pub(crate) fn block_range(b: Block) -> (r: (u32, u32))
    ensures
        r == block_bounds(b),
{
    let u = match b {
        Block::Arrows => ub::ARROWS, Block::BasicLatin => ub::BASIC_LATIN,
        Block::BlockElements => ub::BLOCK_ELEMENTS, Block::Bopomofo => ub::BOPOMOFO,
        Block::CjkCompatibilityForms => ub::CJK_COMPATIBILITY_FORMS,
        Block::CjkSymbolsAndPunctuation => ub::CJK_SYMBOLS_AND_PUNCTUATION,
        Block::CjkUnifiedIdeographs => ub::CJK_UNIFIED_IDEOGRAPHS,
        Block::GeneralPunctuation => ub::GENERAL_PUNCTUATION,
        Block::HalfwidthAndFullwidthForms => ub::HALFWIDTH_AND_FULLWIDTH_FORMS,
        Block::Hiragana => ub::HIRAGANA, Block::Katakana => ub::KATAKANA,
        Block::Latin1Supplement => ub::LATIN_1_SUPPLEMENT, Block::VerticalForms => ub::VERTICAL_FORMS,
        Block::HangulJamo => ub::HANGUL_JAMO, Block::HangulSyllables => ub::HANGUL_SYLLABLES,
    };
    (u.start(), u.end())
}

/// The ordered list of blocks that a preset stands for.
pub open spec fn preset_block_list(p: Preset) -> Seq<Block> {
    match p {
        Preset::Recommended => seq![
            Block::Arrows,
            Block::BasicLatin,
            Block::BlockElements,
            Block::Bopomofo,
            Block::CjkCompatibilityForms,
            Block::CjkSymbolsAndPunctuation,
            Block::CjkUnifiedIdeographs,
            Block::GeneralPunctuation,
            Block::HalfwidthAndFullwidthForms,
            Block::Hiragana,
            Block::Katakana,
            Block::Latin1Supplement,
            Block::VerticalForms,
            Block::HangulJamo,
            Block::HangulSyllables,
        ],
        Preset::Punctuation => seq![
            Block::GeneralPunctuation,
            Block::CjkSymbolsAndPunctuation,
            Block::CjkCompatibilityForms,
            Block::HalfwidthAndFullwidthForms,
            Block::VerticalForms,
        ],
        Preset::Symbols => seq![Block::Arrows, Block::BlockElements],
        Preset::Bopomofo => seq![Block::Bopomofo],
        Preset::CJKUnifiedIdeographs => seq![Block::CjkUnifiedIdeographs],
        Preset::Kana => seq![Block::Hiragana, Block::Katakana],
        Preset::Hangul => seq![Block::HangulJamo, Block::HangulSyllables],
        Preset::Ascii => seq![Block::BasicLatin, Block::Latin1Supplement],
    }
}

/// The blocks of a preset, in the order the table lists them.
pub fn preset_blocks(p: Preset) -> (r: Vec<Block>)
    ensures
        r@ == preset_block_list(p),
        r@.len() > 0,
{
    let r = match p {
        Preset::Recommended => vec![
            Block::Arrows,
            Block::BasicLatin,
            Block::BlockElements,
            Block::Bopomofo,
            Block::CjkCompatibilityForms,
            Block::CjkSymbolsAndPunctuation,
            Block::CjkUnifiedIdeographs,
            Block::GeneralPunctuation,
            Block::HalfwidthAndFullwidthForms,
            Block::Hiragana,
            Block::Katakana,
            Block::Latin1Supplement,
            Block::VerticalForms,
            Block::HangulJamo,
            Block::HangulSyllables,
        ],
        Preset::Punctuation => vec![
            Block::GeneralPunctuation,
            Block::CjkSymbolsAndPunctuation,
            Block::CjkCompatibilityForms,
            Block::HalfwidthAndFullwidthForms,
            Block::VerticalForms,
        ],
        Preset::Symbols => vec![Block::Arrows, Block::BlockElements],
        Preset::Bopomofo => vec![Block::Bopomofo],
        Preset::CJKUnifiedIdeographs => vec![Block::CjkUnifiedIdeographs],
        Preset::Kana => vec![Block::Hiragana, Block::Katakana],
        Preset::Hangul => vec![Block::HangulJamo, Block::HangulSyllables],
        Preset::Ascii => vec![Block::BasicLatin, Block::Latin1Supplement],
    };
    proof {
        assert(r@ =~= preset_block_list(p));
    }
    r
}

/// The blocks of every preset of `ps`, in order, one preset after the other.
pub open spec fn presets_block_list(ps: Seq<Preset>) -> Seq<Block>
    decreases ps.len(),
{
    if ps.len() == 0 {
        Seq::empty()
    } else {
        presets_block_list(ps.drop_last()) + preset_block_list(ps.last())
    }
}

/// Concatenates the block lists of the given presets; a block that two
/// presets share appears once for each.
pub fn blocks_of_presets(ps: &Vec<Preset>) -> (r: Vec<Block>)
    ensures
        r@ == presets_block_list(ps@),
{
    let mut r: Vec<Block> = Vec::new();
    let mut i: usize = 0;
    while i < ps.len()
        invariant
            i <= ps.len(),
            r@ == presets_block_list(ps@.subrange(0, i as int)),
        decreases ps.len() - i,
    {
        let mut bs = preset_blocks(ps[i]);
        proof {
            let s = ps@.subrange(0, i as int + 1);
            assert(s.drop_last() =~= ps@.subrange(0, i as int));
        }
        r.append(&mut bs);
        i = i + 1;
    }
    proof {
        assert(ps@.subrange(0, ps.len() as int) =~= ps@);
    }
    r
}

} // verus!
