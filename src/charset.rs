//! The set of code points that a subset request keeps.
use vstd::prelude::*;
use crate::preset::{Block, Preset, block_bounds, block_range, preset_block_list, preset_blocks};

verus! {

/// Number of code points in the Unicode code space, `0..=0x10FFFF`.
pub const CODE_SPACE: usize = 0x110000;

/// A Unicode scalar value: a code point that is not a surrogate.
pub open spec fn is_scalar(cp: int) -> bool {
    (0 <= cp < 0xD800) || (0xE000 <= cp <= 0x10FFFF)
}

/// The code points of the characters of `s`.
pub open spec fn code_points_of(s: Seq<char>) -> Set<u32> {
    Set::new(|cp: u32| exists|i: int| 0 <= i < s.len() && s[i] as u32 == cp)
}

/// The scalar values in the inclusive range `[start, end]`.
pub open spec fn scalars_in(start: int, end: int) -> Set<u32> {
    Set::new(|cp: u32| start <= cp <= end && is_scalar(cp as int))
}

/// Whether `cp` lies in the inclusive range of one of the blocks `bs`.
pub open spec fn in_some_block(bs: Seq<Block>, cp: u32) -> bool {
    exists|i: int|
        0 <= i < bs.len() && block_bounds(#[trigger] bs[i]).0 <= cp && cp <= block_bounds(bs[i]).1
}

/// The union of the literal inclusive ranges of the blocks `bs`.
pub open spec fn ranges_union(bs: Seq<Block>) -> Set<u32> {
    Set::new(|cp: u32| in_some_block(bs, cp))
}

/// The scalar values that expanding the blocks `bs` contributes.
pub open spec fn blocks_code_points(bs: Seq<Block>) -> Set<u32> {
    Set::new(|cp: u32| is_scalar(cp as int) && in_some_block(bs, cp))
}

/// The scalar values that the presets `ps` contribute.
pub open spec fn presets_code_points(ps: Seq<Preset>) -> Set<u32> {
    Set::new(
        |cp: u32|
            exists|j: int|
                0 <= j < ps.len() && #[trigger] blocks_code_points(preset_block_list(ps[j])).contains(cp),
    )
}

/// The code points of all the texts `texts`.
pub open spec fn texts_code_points(texts: Seq<Seq<char>>) -> Set<u32> {
    Set::new(
        |cp: u32| exists|i: int| 0 <= i < texts.len() && #[trigger] code_points_of(texts[i]).contains(cp),
    )
}

/// The character set that a subset request built from `texts` and `presets` keeps.
pub open spec fn charset_of(texts: Seq<Seq<char>>, presets: Seq<Preset>) -> Set<u32> {
    texts_code_points(texts) + presets_code_points(presets)
}

/// A set of Unicode scalar values, held as one flag per code point.
pub struct CharSet {
    present: Vec<bool>,
}

impl View for CharSet {
    type V = Set<u32>;

    closed spec fn view(&self) -> Set<u32> {
        Set::new(|cp: u32| (cp as int) < self.present@.len() && self.present@[cp as int])
    }
}

impl CharSet {
    /// One flag per code point, and only scalar values flagged.
    pub closed spec fn wf(&self) -> bool {
        &&& self.present@.len() == CODE_SPACE
        &&& forall|i: int| 0 <= i < CODE_SPACE && #[trigger] self.present@[i] ==> is_scalar(i)
    }

    /// The empty set.
    pub fn new() -> (r: CharSet)
        ensures
            r.wf(),
            r@ == Set::<u32>::empty(),
    {
        let mut present: Vec<bool> = Vec::with_capacity(CODE_SPACE);
        let mut i: usize = 0;
        while i < CODE_SPACE
            invariant
                i <= CODE_SPACE,
                present@.len() == i,
                forall|k: int| 0 <= k < i ==> !present@[k],
            decreases CODE_SPACE - i,
        {
            present.push(false);
            i = i + 1;
        }
        let r = CharSet { present };
        assert(r@ =~= Set::<u32>::empty());
        r
    }

    /// Whether `cp` is a member.
    pub fn contains(&self, cp: u32) -> (r: bool)
        requires
            self.wf(),
        ensures
            r == self@.contains(cp),
    {
        (cp as usize) < self.present.len() && self.present[cp as usize]
    }

    /// Inserts `cp` if it is a scalar value and returns whether it is one;
    /// anything else (a surrogate, a value past the code space) is left out.
    pub fn insert_code_point(&mut self, cp: u32) -> (r: bool)
        requires
            old(self).wf(),
        ensures
            final(self).wf(),
            r == is_scalar(cp as int),
            final(self)@ == (if r { old(self)@.insert(cp) } else { old(self)@ }),
    {
        if cp < 0xD800 || (0xE000 <= cp && cp <= 0x10FFFF) {
            self.present.set(cp as usize, true);
            assert(self@ =~= old(self)@.insert(cp));
            true
        } else {
            false
        }
    }

    /// Inserts a character.
    pub fn insert_char(&mut self, c: char)
        requires
            old(self).wf(),
        ensures
            final(self).wf(),
            final(self)@ == old(self)@.insert(c as u32),
    {
        self.insert_code_point(c as u32);
    }

    /// Inserts every character of `text`.
    pub fn insert_chars(&mut self, text: &[char])
        requires
            old(self).wf(),
        ensures
            final(self).wf(),
            final(self)@ == old(self)@ + code_points_of(text@),
    {
        let mut i: usize = 0;
        while i < text.len()
            invariant
                self.wf(),
                i <= text@.len(),
                self@ == old(self)@ + code_points_of(text@.subrange(0, i as int)),
            decreases text.len() - i,
        {
            let c = text[i];
            self.insert_char(c);
            proof {
                let s0 = text@.subrange(0, i as int);
                let s1 = text@.subrange(0, i as int + 1);
                assert forall|cp: u32| code_points_of(s1).contains(cp)
                    <==> code_points_of(s0).contains(cp) || cp == c as u32 by {
                    if code_points_of(s1).contains(cp) && cp != c as u32 {
                        let k = choose|k: int| 0 <= k < s1.len() && s1[k] as u32 == cp;
                        assert(s0[k] == s1[k]);
                    }
                    if code_points_of(s0).contains(cp) {
                        let k = choose|k: int| 0 <= k < s0.len() && s0[k] as u32 == cp;
                        assert(s1[k] == s0[k]);
                    }
                    if cp == c as u32 {
                        assert(s1[i as int] == c);
                    }
                }
                assert(self@ =~= old(self)@ + code_points_of(s1));
            }
            i = i + 1;
        }
        assert(text@.subrange(0, text@.len() as int) =~= text@);
    }

    /// Inserts every scalar value of the inclusive range `[start, end]`,
    /// skipping the surrogates.
    pub fn insert_range(&mut self, start: u32, end: u32)
        requires
            old(self).wf(),
        ensures
            final(self).wf(),
            final(self)@ == old(self)@ + scalars_in(start as int, end as int),
    {
        let mut cp: u64 = start as u64;
        while cp <= end as u64
            invariant
                self.wf(),
                start <= cp,
                cp <= end as u64 + 1 || cp == start as u64,
                self@ == old(self)@ + scalars_in(start as int, cp as int - 1),
            decreases end as u64 + 1 - cp,
        {
            self.insert_code_point(cp as u32);
            assert(self@ =~= old(self)@ + scalars_in(start as int, cp as int));
            cp = cp + 1;
        }
        assert(self@ =~= old(self)@ + scalars_in(start as int, end as int));
    }

    /// Inserts every scalar value of every block of `blocks`.
    pub fn insert_blocks(&mut self, blocks: &[Block])
        requires
            old(self).wf(),
        ensures
            final(self).wf(),
            final(self)@ == old(self)@ + blocks_code_points(blocks@),
    {
        let mut i: usize = 0;
        while i < blocks.len()
            invariant
                self.wf(),
                i <= blocks@.len(),
                self@ == old(self)@ + blocks_code_points(blocks@.subrange(0, i as int)),
            decreases blocks.len() - i,
        {
            let (start, end) = block_range(blocks[i]);
            self.insert_range(start, end);
            proof {
                let s0 = blocks@.subrange(0, i as int);
                let s1 = blocks@.subrange(0, i as int + 1);
                assert forall|cp: u32| blocks_code_points(s1).contains(cp)
                    <==> blocks_code_points(s0).contains(cp) || scalars_in(start as int, end as int).contains(cp) by {
                    if in_some_block(s1, cp) {
                        let k = choose|k: int| 0 <= k < s1.len() && block_bounds(#[trigger] s1[k]).0 <= cp
                            && cp <= block_bounds(s1[k]).1;
                        if k < i {
                            assert(s0[k] == s1[k]);
                        }
                    }
                    if in_some_block(s0, cp) {
                        let k = choose|k: int| 0 <= k < s0.len() && block_bounds(#[trigger] s0[k]).0 <= cp
                            && cp <= block_bounds(s0[k]).1;
                        assert(s1[k] == s0[k]);
                    }
                    if scalars_in(start as int, end as int).contains(cp) {
                        assert(s1[i as int] == blocks@[i as int]);
                    }
                }
                assert(self@ =~= old(self)@ + blocks_code_points(s1));
            }
            i = i + 1;
        }
        assert(blocks@.subrange(0, blocks@.len() as int) =~= blocks@);
    }

    /// Inserts every scalar value of every block of a preset.
    pub fn insert_preset(&mut self, p: Preset)
        requires
            old(self).wf(),
        ensures
            final(self).wf(),
            final(self)@ == old(self)@ + blocks_code_points(preset_block_list(p)),
    {
        let blocks = preset_blocks(p);
        self.insert_blocks(blocks.as_slice());
    }
}


impl CharSet {
    /// The members in ascending order.
    pub fn code_points(&self) -> (r: Vec<u32>)
        requires
            self.wf(),
        ensures
            forall|i: int| 0 <= i < r@.len() ==> self@.contains(#[trigger] r@[i]),
            forall|cp: u32| self@.contains(cp) ==> exists|i: int| 0 <= i < r@.len() && r@[i] == cp,
            forall|i: int, j: int| 0 <= i < j < r@.len() ==> r@[i] < r@[j],
    {
        let mut r: Vec<u32> = Vec::new();
        let mut k: usize = 0;
        while k < CODE_SPACE
            invariant
                self.wf(),
                k <= CODE_SPACE,
                forall|i: int| 0 <= i < r@.len() ==> self@.contains(#[trigger] r@[i]) && r@[i] < k,
                forall|cp: u32|
                    self@.contains(cp) && cp < k ==> exists|i: int| 0 <= i < r@.len() && r@[i] == cp,
                forall|i: int, j: int| 0 <= i < j < r@.len() ==> r@[i] < r@[j],
            decreases CODE_SPACE - k,
        {
            if self.present[k] {
                proof {
                    assert(self@.contains(k as u32));
                }
                let ghost r0 = r@;
                r.push(k as u32);
                proof {
                    assert forall|cp: u32| self@.contains(cp) && cp < k + 1
                        implies exists|i: int| 0 <= i < r@.len() && r@[i] == cp by {
                        if cp == k {
                            assert(r@[r@.len() - 1] == cp);
                        } else {
                            let i = choose|i: int| 0 <= i < r0.len() && r0[i] == cp;
                            assert(r@[i] == r0[i]);
                        }
                    }
                }
            }
            k = k + 1;
        }
        r
    }

    /// The members in ascending order, as characters.
    pub fn to_chars(&self) -> (r: Vec<char>)
        requires
            self.wf(),
        ensures
            forall|i: int| 0 <= i < r@.len() ==> self@.contains(#[trigger] r@[i] as u32),
            forall|cp: u32| self@.contains(cp) ==> exists|i: int| 0 <= i < r@.len() && r@[i] as u32 == cp,
            forall|i: int, j: int| 0 <= i < j < r@.len() ==> (r@[i] as u32) < (r@[j] as u32),
    {
        let cps = self.code_points();
        let mut r: Vec<char> = Vec::new();
        let mut i: usize = 0;
        while i < cps.len()
            invariant
                self.wf(),
                i <= cps@.len(),
                r@.len() == i,
                forall|k: int| 0 <= k < cps@.len() ==> self@.contains(#[trigger] cps@[k]),
                forall|k: int| 0 <= k < i ==> #[trigger] r@[k] as u32 == cps@[k],
            decreases cps.len() - i,
        {
            proof {
                assert(self@.contains(cps@[i as int]));
                assert(is_scalar(cps@[i as int] as int));
            }
            match char_of(cps[i]) {
                Some(c) => r.push(c),
                None => {},
            }
            i = i + 1;
        }
        proof {
            assert forall|cp: u32| self@.contains(cp) implies exists|i: int| 0 <= i < r@.len() && r@[i] as u32 == cp by {
                let k = choose|k: int| 0 <= k < cps@.len() && cps@[k] == cp;
                assert(r@[k] as u32 == cps@[k]);
            }
        }
        r
    }
}

/// Relies on `char::from_u32`: `Some` exactly for a scalar value, holding
/// the character with that code point.
#[verifier::external_body]
pub(crate) fn char_of(cp: u32) -> (r: Option<char>)
    ensures
        r is Some <==> is_scalar(cp as int),
        r matches Some(c) ==> c as u32 == cp,
{
    char::from_u32(cp)
}

/// Builds the character set of a subset request: every character of every
/// text, and every scalar value of every block of every preset.
pub fn build_charset(texts: &Vec<Vec<char>>, presets: &Vec<Preset>) -> (r: CharSet)
    ensures
        r.wf(),
        r@ == charset_of(texts@.map_values(|t: Vec<char>| t@), presets@),
{
    let ghost tv = texts@.map_values(|t: Vec<char>| t@);
    let mut set = CharSet::new();
    let mut i: usize = 0;
    while i < texts.len()
        invariant
            set.wf(),
            i <= texts@.len(),
            tv == texts@.map_values(|t: Vec<char>| t@),
            set@ == texts_code_points(tv.subrange(0, i as int)),
        decreases texts.len() - i,
    {
        set.insert_chars(texts[i].as_slice());
        proof {
            let s0 = tv.subrange(0, i as int);
            let s1 = tv.subrange(0, i as int + 1);
            assert(s1[i as int] == texts@[i as int]@);
            assert forall|cp: u32| texts_code_points(s1).contains(cp)
                <==> texts_code_points(s0).contains(cp) || code_points_of(texts@[i as int]@).contains(cp) by {
                if texts_code_points(s1).contains(cp) {
                    let k = choose|k: int| 0 <= k < s1.len() && #[trigger] code_points_of(s1[k]).contains(cp);
                    if k < i {
                        assert(s0[k] == s1[k]);
                    }
                }
                if texts_code_points(s0).contains(cp) {
                    let k = choose|k: int| 0 <= k < s0.len() && #[trigger] code_points_of(s0[k]).contains(cp);
                    assert(s1[k] == s0[k]);
                }
            }
            assert(set@ =~= texts_code_points(s1));
        }
        i = i + 1;
    }
    proof {
        assert(tv.subrange(0, texts@.len() as int) =~= tv);
    }
    let ghost from_texts = set@;
    let mut j: usize = 0;
    while j < presets.len()
        invariant
            set.wf(),
            j <= presets@.len(),
            from_texts == texts_code_points(tv),
            set@ == from_texts + presets_code_points(presets@.subrange(0, j as int)),
        decreases presets.len() - j,
    {
        let p = presets[j];
        set.insert_preset(p);
        proof {
            let s0 = presets@.subrange(0, j as int);
            let s1 = presets@.subrange(0, j as int + 1);
            assert(s1[j as int] == p);
            assert forall|cp: u32| presets_code_points(s1).contains(cp)
                <==> presets_code_points(s0).contains(cp)
                || blocks_code_points(preset_block_list(p)).contains(cp) by {
                if presets_code_points(s1).contains(cp) {
                    let k = choose|k: int| 0 <= k < s1.len()
                        && #[trigger] blocks_code_points(preset_block_list(s1[k])).contains(cp);
                    if k < j {
                        assert(s0[k] == s1[k]);
                    }
                }
                if presets_code_points(s0).contains(cp) {
                    let k = choose|k: int| 0 <= k < s0.len()
                        && #[trigger] blocks_code_points(preset_block_list(s0[k])).contains(cp);
                    assert(s1[k] == s0[k]);
                }
            }
            assert(set@ =~= from_texts + presets_code_points(s1));
        }
        j = j + 1;
    }
    proof {
        assert(presets@.subrange(0, presets@.len() as int) =~= presets@);
    }
    set
}

/// Every block range lies inside the code space and clear of the surrogates.
proof fn lemma_block_in_scalars(b: Block)
    ensures
        forall|cp: int| block_bounds(b).0 <= cp <= block_bounds(b).1 ==> is_scalar(cp),
{
}

/// Expanding the blocks of a preset yields exactly the union of their
/// literal inclusive ranges, and every member is a Unicode scalar value.
pub proof fn lemma_preset_expansion(p: Preset)
    ensures
        blocks_code_points(preset_block_list(p)) == ranges_union(preset_block_list(p)),
        forall|cp: u32| #[trigger] blocks_code_points(preset_block_list(p)).contains(cp) ==> is_scalar(cp as int),
{
    let bs = preset_block_list(p);
    assert forall|cp: u32| in_some_block(bs, cp) implies is_scalar(cp as int) by {
        let k = choose|k: int| 0 <= k < bs.len() && block_bounds(#[trigger] bs[k]).0 <= cp && cp <= block_bounds(bs[k]).1;
        lemma_block_in_scalars(bs[k]);
    }
    assert(blocks_code_points(bs) =~= ranges_union(bs));
}

/// The character set of a request depends only on which texts and which
/// presets it names: not on their order, nor on how often each is named.
pub proof fn lemma_charset_order_independent(
    t1: Seq<Seq<char>>,
    t2: Seq<Seq<char>>,
    p1: Seq<Preset>,
    p2: Seq<Preset>,
)
    requires
        t1.to_set() == t2.to_set(),
        p1.to_set() == p2.to_set(),
    ensures
        charset_of(t1, p1) == charset_of(t2, p2),
{
    assert forall|cp: u32| texts_code_points(t1).contains(cp) implies texts_code_points(t2).contains(cp) by {
        let k = choose|k: int| 0 <= k < t1.len() && #[trigger] code_points_of(t1[k]).contains(cp);
        assert(t1.to_set().contains(t1[k]));
        assert(t2.to_set().contains(t1[k]));
        let m = choose|m: int| 0 <= m < t2.len() && t2[m] == t1[k];
        assert(code_points_of(t2[m]).contains(cp));
    }
    assert forall|cp: u32| texts_code_points(t2).contains(cp) implies texts_code_points(t1).contains(cp) by {
        let k = choose|k: int| 0 <= k < t2.len() && #[trigger] code_points_of(t2[k]).contains(cp);
        assert(t2.to_set().contains(t2[k]));
        assert(t1.to_set().contains(t2[k]));
        let m = choose|m: int| 0 <= m < t1.len() && t1[m] == t2[k];
        assert(code_points_of(t1[m]).contains(cp));
    }
    assert forall|cp: u32| presets_code_points(p1).contains(cp) implies presets_code_points(p2).contains(cp) by {
        let k = choose|k: int| 0 <= k < p1.len() && #[trigger] blocks_code_points(preset_block_list(p1[k])).contains(cp);
        assert(p1.to_set().contains(p1[k]));
        assert(p2.to_set().contains(p1[k]));
        let m = choose|m: int| 0 <= m < p2.len() && p2[m] == p1[k];
        assert(blocks_code_points(preset_block_list(p2[m])).contains(cp));
    }
    assert forall|cp: u32| presets_code_points(p2).contains(cp) implies presets_code_points(p1).contains(cp) by {
        let k = choose|k: int| 0 <= k < p2.len() && #[trigger] blocks_code_points(preset_block_list(p2[k])).contains(cp);
        assert(p2.to_set().contains(p2[k]));
        assert(p1.to_set().contains(p2[k]));
        let m = choose|m: int| 0 <= m < p1.len() && p1[m] == p2[k];
        assert(blocks_code_points(preset_block_list(p1[m])).contains(cp));
    }
    assert(texts_code_points(t1) =~= texts_code_points(t2));
    assert(presets_code_points(p1) =~= presets_code_points(p2));
}

/// Naming one more text adds exactly its characters; naming one more preset
/// adds exactly the scalar values of its blocks.
pub proof fn lemma_charset_push(t: Seq<Seq<char>>, p: Seq<Preset>, f: Seq<char>, q: Preset)
    ensures
        charset_of(t.push(f), p) == charset_of(t, p) + code_points_of(f),
        charset_of(t, p.push(q)) == charset_of(t, p) + blocks_code_points(preset_block_list(q)),
{
    assert forall|cp: u32| texts_code_points(t.push(f)).contains(cp)
        <==> texts_code_points(t).contains(cp) || code_points_of(f).contains(cp) by {
        if texts_code_points(t.push(f)).contains(cp) {
            let k = choose|k: int| 0 <= k < t.push(f).len() && #[trigger] code_points_of(t.push(f)[k]).contains(cp);
            if k < t.len() {
                assert(t.push(f)[k] == t[k]);
            }
        }
        if texts_code_points(t).contains(cp) {
            let k = choose|k: int| 0 <= k < t.len() && #[trigger] code_points_of(t[k]).contains(cp);
            assert(t.push(f)[k] == t[k]);
        }
        if code_points_of(f).contains(cp) {
            assert(t.push(f)[t.len() as int] == f);
        }
    }
    assert forall|cp: u32| presets_code_points(p.push(q)).contains(cp)
        <==> presets_code_points(p).contains(cp) || blocks_code_points(preset_block_list(q)).contains(cp) by {
        if presets_code_points(p.push(q)).contains(cp) {
            let k = choose|k: int| 0 <= k < p.push(q).len()
                && #[trigger] blocks_code_points(preset_block_list(p.push(q)[k])).contains(cp);
            if k < p.len() {
                assert(p.push(q)[k] == p[k]);
            }
        }
        if presets_code_points(p).contains(cp) {
            let k = choose|k: int| 0 <= k < p.len() && #[trigger] blocks_code_points(preset_block_list(p[k])).contains(cp);
            assert(p.push(q)[k] == p[k]);
        }
        if blocks_code_points(preset_block_list(q)).contains(cp) {
            assert(p.push(q)[p.len() as int] == q);
        }
    }
    assert(charset_of(t.push(f), p) =~= charset_of(t, p) + code_points_of(f));
    assert(charset_of(t, p.push(q)) =~= charset_of(t, p) + blocks_code_points(preset_block_list(q)));
}

/// Re-inserting what a request already holds changes nothing: naming again
/// a text or a preset that it names, or adding a text whose characters the
/// set already holds.
pub proof fn lemma_charset_absorbs_present(t: Seq<Seq<char>>, p: Seq<Preset>, f: Seq<char>, q: Preset)
    ensures
        t.contains(f) ==> charset_of(t.push(f), p) == charset_of(t, p),
        p.contains(q) ==> charset_of(t, p.push(q)) == charset_of(t, p),
        code_points_of(f).subset_of(charset_of(t, p)) ==> charset_of(t.push(f), p) == charset_of(t, p),
{
    lemma_charset_push(t, p, f, q);
    if t.contains(f) {
        let k = choose|k: int| 0 <= k < t.len() && t[k] == f;
        assert forall|cp: u32| code_points_of(f).contains(cp) implies charset_of(t, p).contains(cp) by {
            assert(code_points_of(t[k]).contains(cp));
        }
        assert(charset_of(t.push(f), p) =~= charset_of(t, p));
    }
    if p.contains(q) {
        let k = choose|k: int| 0 <= k < p.len() && p[k] == q;
        assert forall|cp: u32| blocks_code_points(preset_block_list(q)).contains(cp) implies charset_of(t, p).contains(cp) by {
            assert(blocks_code_points(preset_block_list(p[k])).contains(cp));
        }
        assert(charset_of(t, p.push(q)) =~= charset_of(t, p));
    }
    if code_points_of(f).subset_of(charset_of(t, p)) {
        assert(charset_of(t.push(f), p) =~= charset_of(t, p));
    }
}

/// Inserting code points into a set commutes, and inserting a member again
/// changes nothing.
pub proof fn lemma_insert_commutes_and_idempotent(s: Set<u32>, a: u32, b: u32)
    ensures
        s.insert(a).insert(b) == s.insert(b).insert(a),
        s.insert(a).insert(a) == s.insert(a),
        s.contains(a) ==> s.insert(a) == s,
{
    assert(s.insert(a).insert(b) =~= s.insert(b).insert(a));
    assert(s.insert(a).insert(a) =~= s.insert(a));
    if s.contains(a) {
        assert(s.insert(a) =~= s);
    }
}

} // verus!
