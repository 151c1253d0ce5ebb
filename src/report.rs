//! The font metadata report: parsed names, glyph coverage and the Unicode
//! blocks that the coverage touches.
use vstd::prelude::*;
use crate::charset::{CharSet, is_scalar};
use crate::names::{sorted_unique, strictly_sorted, strings_view};

verus! {

/// Platform id of the Windows platform in a font's naming table, whose
/// records are the display strings.
pub const WINDOWS_PLATFORM: u16 = 3;

/// One record of a font's naming table.
pub struct NameRecord {
    /// The platform the record is for.
    pub platform_id: u16,
    /// The record's language, as text.
    pub language: String,
    /// The numeric name identifier (1 family, 2 subfamily, ...).
    pub name_id: u16,
    /// The decoded string, when it could be decoded.
    pub value: Option<String>,
}

/// A name record as plain values: platform, name id, decoded string.
pub open spec fn record_view(r: NameRecord) -> (u16, u16, Option<Seq<char>>) {
    (
        r.platform_id,
        r.name_id,
        match r.value {
            Some(v) => Some(v@),
            None => None,
        },
    )
}

/// The string of the first Windows record with name id `id`; empty when
/// there is none or its string could not be decoded.
pub open spec fn windows_name_of(recs: Seq<(u16, u16, Option<Seq<char>>)>, id: u16) -> Seq<char>
    decreases recs.len(),
{
    if recs.len() == 0 {
        Seq::empty()
    } else if recs[0].0 == WINDOWS_PLATFORM && recs[0].1 == id {
        match recs[0].2 {
            Some(v) => v,
            None => Seq::empty(),
        }
    } else {
        windows_name_of(recs.drop_first(), id)
    }
}

/// The records of `recs` as plain values.
pub open spec fn records_view(recs: Seq<NameRecord>) -> Seq<(u16, u16, Option<Seq<char>>)> {
    recs.map_values(|r: NameRecord| record_view(r))
}

/// The lowercase hexadecimal digit of `d`, for `0 <= d < 16`.
pub open spec fn hex_digit(d: int) -> char {
    seq!['0', '1', '2', '3', '4', '5', '6', '7', '8', '9', 'a', 'b', 'c', 'd', 'e', 'f'][d]
}

/// `n` in lowercase hexadecimal, without leading zeros.
pub open spec fn hex_of(n: nat) -> Seq<char>
    decreases n,
{
    if n < 16 {
        seq![hex_digit(n as int)]
    } else {
        hex_of(n / 16).push(hex_digit((n % 16) as int))
    }
}

/// What `char::escape_default` makes of `c`: `\t`, `\r`, `\n`; a backslash
/// before `\`, `'` and `"`; printable ASCII as it is; anything else as
/// `\u{...}` in hexadecimal.
pub open spec fn escape_char(c: char) -> Seq<char> {
    if c == '\t' {
        seq!['\\', 't']
    } else if c == '\r' {
        seq!['\\', 'r']
    } else if c == '\n' {
        seq!['\\', 'n']
    } else if c == '\\' || c == '\'' || c == '"' {
        seq!['\\', c]
    } else if 0x20 <= c as u32 <= 0x7e {
        seq![c]
    } else {
        seq!['\\', 'u', '{'] + hex_of(c as u32 as nat) + seq!['}']
    }
}

/// What `str::escape_default` makes of a string: each character escaped in
/// turn.
pub open spec fn escaped_of(s: Seq<char>) -> Seq<char>
    decreases s.len(),
{
    if s.len() == 0 {
        Seq::empty()
    } else {
        escaped_of(s.drop_last()) + escape_char(s.last())
    }
}

/// Relies on `str::escape_default`, which escapes each character with
/// `char::escape_default`.
#[verifier::external_body]
fn escape(s: &str) -> (r: String)
    ensures
        r@ == escaped_of(s@),
{
    s.escape_default().to_string()
}

/// The string of the first Windows record with name id `id`, or an empty
/// string.
pub fn windows_name(records: &Vec<NameRecord>, id: u16) -> (r: String)
    ensures
        r@ == windows_name_of(records_view(records@), id),
{
    let ghost all = records_view(records@);
    assert(all.subrange(0, all.len() as int) =~= all);
    let mut i: usize = 0;
    while i < records.len()
        invariant
            i <= records@.len(),
            all == records_view(records@),
            windows_name_of(all, id) == windows_name_of(all.subrange(i as int, all.len() as int), id),
        decreases records.len() - i,
    {
        let rec = &records[i];
        let ghost rest = all.subrange(i as int, all.len() as int);
        assert(rest[0] == record_view(records@[i as int]));
        if rec.platform_id == WINDOWS_PLATFORM && rec.name_id == id {
            return match &rec.value {
                Some(v) => v.clone(),
                None => String::new(),
            };
        }
        assert(rest.drop_first() =~= all.subrange(i as int + 1, all.len() as int));
        i = i + 1;
    }
    String::new()
}

/// The display names of a font, taken from its Windows name records.
pub struct ParsedNames {
    pub family: String,
    pub subfamily: String,
    pub unique_id: String,
    pub full_name: String,
    pub version: String,
    pub copyright: String,
}

/// Picks the display names out of the naming table: family (id 1) and
/// subfamily (id 2) as they are; unique id (3), full name (4), version (5)
/// and copyright (0) escaped for the terminal.
pub fn parsed_names(records: &Vec<NameRecord>) -> (r: ParsedNames)
    ensures
        r.family@ == windows_name_of(records_view(records@), 1),
        r.subfamily@ == windows_name_of(records_view(records@), 2),
        r.unique_id@ == escaped_of(windows_name_of(records_view(records@), 3)),
        r.full_name@ == escaped_of(windows_name_of(records_view(records@), 4)),
        r.version@ == escaped_of(windows_name_of(records_view(records@), 5)),
        r.copyright@ == escaped_of(windows_name_of(records_view(records@), 0)),
{
    let family = windows_name(records, 1);
    let subfamily = windows_name(records, 2);
    let unique_id = escape(windows_name(records, 3).as_str());
    let full_name = escape(windows_name(records, 4).as_str());
    let version = escape(windows_name(records, 5).as_str());
    let copyright = escape(windows_name(records, 0).as_str());
    ParsedNames { family, subfamily, unique_id, full_name, version, copyright }
}

/// The code points that a font's character maps send to a real glyph: a
/// mapping `(code point, glyph id)` counts when the glyph is not `.notdef`
/// (id 0) and the code point is a scalar value.
pub open spec fn covered(mappings: Seq<(u32, u16)>) -> Set<u32> {
    Set::new(
        |cp: u32|
            is_scalar(cp as int) && exists|i: int|
                0 <= i < mappings.len() && #[trigger] mappings[i].0 == cp && mappings[i].1 != 0,
    )
}

/// The set of code points that the mappings cover.
pub fn coverage(mappings: &Vec<(u32, u16)>) -> (r: CharSet)
    ensures
        r.wf(),
        r@ == covered(mappings@),
{
    let mut set = CharSet::new();
    let mut i: usize = 0;
    while i < mappings.len()
        invariant
            set.wf(),
            i <= mappings@.len(),
            set@ == covered(mappings@.subrange(0, i as int)),
        decreases mappings.len() - i,
    {
        let (cp, glyph) = mappings[i];
        if glyph != 0 {
            set.insert_code_point(cp);
        }
        proof {
            let s0 = mappings@.subrange(0, i as int);
            let s1 = mappings@.subrange(0, i as int + 1);
            assert(s1[i as int] == (cp, glyph));
            assert forall|x: u32| covered(s1).contains(x) <==> covered(s0).contains(x) || (x == cp
                && glyph != 0 && is_scalar(x as int)) by {
                if covered(s1).contains(x) {
                    let k = choose|k: int| 0 <= k < s1.len() && #[trigger] s1[k].0 == x && s1[k].1 != 0;
                    if k < i {
                        assert(s0[k] == s1[k]);
                    }
                }
                if covered(s0).contains(x) {
                    let k = choose|k: int| 0 <= k < s0.len() && #[trigger] s0[k].0 == x && s0[k].1 != 0;
                    assert(s1[k] == s0[k]);
                }
            }
            assert(set@ =~= covered(s1));
        }
        i = i + 1;
    }
    assert(mappings@.subrange(0, mappings@.len() as int) =~= mappings@);
    set
}

/// The name of the Unicode block that holds `c`, if any block does.
pub uninterp spec fn block_name_of(c: char) -> Option<Seq<char>>;

/// Relies on `unicode_blocks::find_unicode_block` and `UnicodeBlock::name`:
/// the block that holds `c`, by name, or `None` where no block does.
#[verifier::external_body]
fn find_block_name(c: char) -> (r: Option<String>)
    ensures
        match r {
            Some(n) => block_name_of(c) == Some(n@),
            None => block_name_of(c) is None,
        },
{
    unicode_blocks::find_unicode_block(c).map(|b| b.name().to_string())
}

/// The names of the blocks that hold some member of `cs`. A code point that
/// no block holds contributes nothing.
pub open spec fn block_names_of(cs: Set<u32>) -> Set<Seq<char>> {
    Set::new(|n: Seq<char>| exists|c: char| cs.contains(c as u32) && block_name_of(c) == Some(n))
}

proof fn lemma_char_code_injective(a: char, b: char)
    ensures
        a as u32 == b as u32 ==> a == b,
{
}

/// The names of the Unicode blocks that the members of `cs` fall in, sorted
/// and each once.
pub fn block_names(cs: &CharSet) -> (r: Vec<String>)
    requires
        cs.wf(),
    ensures
        strictly_sorted(strings_view(r@)),
        strings_view(r@).to_set() == block_names_of(cs@),
{
    let chars = cs.to_chars();
    let mut names: Vec<String> = Vec::new();
    let mut i: usize = 0;
    while i < chars.len()
        invariant
            i <= chars@.len(),
            forall|n: Seq<char>| strings_view(names@).to_set().contains(n) <==>
                exists|k: int| 0 <= k < i && block_name_of(#[trigger] chars@[k]) == Some(n),
        decreases chars.len() - i,
    {
        let ghost before = strings_view(names@);
        match find_block_name(chars[i]) {
            Some(n) => {
                names.push(n);
                proof {
                    assert(strings_view(names@) =~= before.push(names@[names@.len() - 1]@));
                }
            },
            None => {},
        }
        proof {
            let now = strings_view(names@);
            assert forall|n: Seq<char>| now.to_set().contains(n) <==>
                exists|k: int| 0 <= k < i + 1 && block_name_of(#[trigger] chars@[k]) == Some(n) by {
                if now.to_set().contains(n) {
                    let j = choose|j: int| 0 <= j < now.len() && now[j] == n;
                    if j < before.len() {
                        assert(before[j] == n);
                        assert(before.to_set().contains(n));
                    } else {
                        assert(block_name_of(chars@[i as int]) == Some(n));
                    }
                }
                if exists|k: int| 0 <= k < i + 1 && block_name_of(#[trigger] chars@[k]) == Some(n) {
                    let k = choose|k: int| 0 <= k < i + 1 && block_name_of(#[trigger] chars@[k]) == Some(n);
                    if k < i {
                        assert(before.to_set().contains(n));
                        let j = choose|j: int| 0 <= j < before.len() && before[j] == n;
                        assert(now[j] == n);
                    } else {
                        assert(now[now.len() - 1] == n);
                    }
                }
            }
        }
        i = i + 1;
    }
    let r = sorted_unique(&names);
    proof {
        assert forall|n: Seq<char>| strings_view(names@).to_set().contains(n) <==> block_names_of(cs@).contains(n) by {
            if exists|k: int| 0 <= k < chars@.len() && block_name_of(#[trigger] chars@[k]) == Some(n) {
                let k = choose|k: int| 0 <= k < chars@.len() && block_name_of(#[trigger] chars@[k]) == Some(n);
                assert(cs@.contains(chars@[k] as u32));
            }
            if block_names_of(cs@).contains(n) {
                let c = choose|c: char| cs@.contains(c as u32) && block_name_of(c) == Some(n);
                let k = choose|k: int| 0 <= k < chars@.len() && chars@[k] as u32 == c as u32;
                lemma_char_code_injective(chars@[k], c);
            }
        }
        assert(strings_view(names@).to_set() =~= block_names_of(cs@));
    }
    r
}

#[verifier::external_type_specification]
#[verifier::external_body]
pub struct ExFace<'a>(ttf_parser::Face<'a>);

#[verifier::external_type_specification]
#[verifier::external_body]
pub struct ExFaceParsingError(ttf_parser::FaceParsingError);

/// Whether `ttf_parser` reads a face at index 0 of the font data `data`.
pub uninterp spec fn face_parses(data: Seq<u8>) -> bool;

/// The naming table that `ttf_parser` reads from the first face of `data`,
/// as (platform, name id, decoded string), in table order.
pub uninterp spec fn name_table_of(data: Seq<u8>) -> Seq<(u16, u16, Option<Seq<char>>)>;

/// The character-map lookups that `ttf_parser` reads from the first face of
/// `data`: each code point that a subtable lists, with its glyph id if any.
pub uninterp spec fn cmap_lookups_of(data: Seq<u8>) -> Seq<(u32, Option<u16>)>;

/// Relies on `ttf_parser::Face::parse`: reads the face at `index` of a font
/// file, or fails with a typed error on malformed data, without panicking;
/// the outcome depends on the bytes alone.
pub assume_specification<'a>[ ttf_parser::Face::<'a>::parse ](data: &'a [u8], index: u32) -> (r: Result<
    ttf_parser::Face<'a>,
    ttf_parser::FaceParsingError,
>)
    ensures
        index == 0 ==> (r is Ok <==> face_parses(data@)),
;

/// Relies on `ttf_parser::Face::parse` and `Face::names` with
/// `Name::to_string` and `Name::language`: the records of the naming table of
/// the first face, in table order (none where the data does not parse).
#[verifier::external_body]
fn face_name_records(data: &[u8]) -> (r: Vec<NameRecord>)
    ensures
        face_parses(data@) ==> records_view(r@) == name_table_of(data@),
{
    let Ok(face) = ttf_parser::Face::parse(data, 0) else { return Vec::new() };
    face.names().into_iter().map(|n| NameRecord {
        platform_id: n.platform_id as u16,
        language: n.language().to_string(),
        name_id: n.name_id,
        value: n.to_string(),
    }).collect()
}

/// Relies on `ttf_parser::Face::parse` and the `cmap` subtables of its first
/// face: for each subtable, each code point that `Subtable::codepoints`
/// lists, with what `Subtable::glyph_index` gives for it.
#[verifier::external_body]
fn face_mappings(data: &[u8]) -> (r: Vec<(u32, Option<u16>)>)
    ensures
        face_parses(data@) ==> r@ == cmap_lookups_of(data@),
{
    let mut r: Vec<(u32, Option<u16>)> = Vec::new();
    let Ok(face) = ttf_parser::Face::parse(data, 0) else { return r };
    for st in face.tables().cmap.iter().flat_map(|c| c.subtables.into_iter()) {
        st.codepoints(|cp| r.push((cp, st.glyph_index(cp).map(|g| g.0))));
    }
    r
}

/// A lookup's glyph id, with an absent glyph written as 0, the `.notdef`
/// glyph.
pub open spec fn glyph_id_of(lookup: (u32, Option<u16>)) -> (u32, u16) {
    (
        lookup.0,
        match lookup.1 {
            Some(g) => g,
            None => 0u16,
        },
    )
}

/// The lookups with each absent glyph written as 0.
pub open spec fn glyph_ids_of(lookups: Seq<(u32, Option<u16>)>) -> Seq<(u32, u16)> {
    lookups.map_values(|l: (u32, Option<u16>)| glyph_id_of(l))
}

/// Character-map lookups with an absent glyph written as glyph 0, the
/// `.notdef` glyph: either way the code point has no real glyph.
pub fn glyph_ids(lookups: &Vec<(u32, Option<u16>)>) -> (r: Vec<(u32, u16)>)
    ensures
        r@ == glyph_ids_of(lookups@),
{
    let mut r: Vec<(u32, u16)> = Vec::new();
    let mut i: usize = 0;
    while i < lookups.len()
        invariant
            i <= lookups@.len(),
            r@.len() == i,
            forall|k: int| 0 <= k < i ==> #[trigger] r@[k] == glyph_id_of(lookups@[k]),
        decreases lookups.len() - i,
    {
        let (cp, glyph) = lookups[i];
        let id: u16 = match glyph {
            Some(g) => g,
            None => 0,
        };
        r.push((cp, id));
        i = i + 1;
    }
    assert(r@ =~= glyph_ids_of(lookups@));
    r
}

/// Why a font report could not be made.
pub enum ReportError {
    /// The font data is malformed.
    Malformed(ttf_parser::FaceParsingError),
}

/// What the report says of a font.
pub struct FontReport {
    /// The naming table, in table order.
    pub records: Vec<NameRecord>,
    /// The display names picked from it.
    pub names: ParsedNames,
    /// The character-map entries `(code point, glyph id)`, in the order the
    /// subtables list them.
    pub mappings: Vec<(u32, u16)>,
    /// The code points mapped to a real glyph, ascending.
    pub covered: Vec<u32>,
    /// The names of the Unicode blocks they fall in, sorted, each once.
    pub blocks: Vec<String>,
}

/// The display names of a naming table.
pub open spec fn names_match(n: ParsedNames, recs: Seq<(u16, u16, Option<Seq<char>>)>) -> bool {
    &&& n.family@ == windows_name_of(recs, 1)
    &&& n.subfamily@ == windows_name_of(recs, 2)
    &&& n.unique_id@ == escaped_of(windows_name_of(recs, 3))
    &&& n.full_name@ == escaped_of(windows_name_of(recs, 4))
    &&& n.version@ == escaped_of(windows_name_of(recs, 5))
    &&& n.copyright@ == escaped_of(windows_name_of(recs, 0))
}

/// `rep` is the report of a font with name records `rep.records` and
/// character-map entries `rep.mappings`.
pub open spec fn is_report_of(rep: FontReport) -> bool {
    let mappings = rep.mappings@;
    &&& names_match(rep.names, records_view(rep.records@))
    &&& rep.covered@.to_set() == covered(mappings)
    &&& forall|i: int, j: int| 0 <= i < j < rep.covered@.len() ==> rep.covered@[i] < rep.covered@[j]
    &&& strictly_sorted(strings_view(rep.blocks@))
    &&& strings_view(rep.blocks@).to_set() == block_names_of(covered(mappings))
}

/// The report of a font, given its name records and its character-map
/// entries `(code point, glyph id)`.
pub fn report_from(records: Vec<NameRecord>, mappings: Vec<(u32, u16)>) -> (r: FontReport)
    ensures
        is_report_of(r),
        r.records@ == records@,
        r.mappings@ == mappings@,
{
    let names = parsed_names(&records);
    let set = coverage(&mappings);
    let points = set.code_points();
    let blocks = block_names(&set);
    assert(points@.to_set() =~= covered(mappings@));
    FontReport { records, names, mappings, covered: points, blocks }
}

/// The report of the first face of a font file: made exactly when the data
/// parses, from the naming table and character maps read from it.
pub fn font_report(data: &[u8]) -> (r: Result<FontReport, ReportError>)
    ensures
        r is Ok <==> face_parses(data@),
        r matches Ok(rep) ==> {
            &&& is_report_of(rep)
            &&& records_view(rep.records@) == name_table_of(data@)
            &&& rep.mappings@ == glyph_ids_of(cmap_lookups_of(data@))
        },
{
    match ttf_parser::Face::parse(data, 0) {
        Ok(_) => {
            let records = face_name_records(data);
            let mappings = glyph_ids(&face_mappings(data));
            Ok(report_from(records, mappings))
        },
        Err(e) => Err(ReportError::Malformed(e)),
    }
}

} // verus!
