//! Fonts: one TrueType file with the characters used from it, and families
//! of up to four such variants.

use vstd::prelude::*;
use crate::glyphs::{
    face_ascender, face_descender, face_glyph_advance, face_glyph_index, face_parse_failure,
    face_units_per_em, ttf_ascender, ttf_descender, ttf_glyph_advance, ttf_glyph_index,
    ttf_parse_failure, ttf_units_per_em,
};
use crate::glyphs::{can_subset, find_spare_id, has_cff_tag, subset_font, subset_result};
use crate::names::name_tables_are_fine;
use vstd::string::StringExecFns;
use crate::strings::{
    chars_of, decimal_chars, hex4, hex_code, push_char, push_decimal, push_hex4, push_hex_code,
};
use vstd::string::StringSliceAdditionalSpecFns;
use vstd::utf8::encode_utf8;
use crate::object::{
    array_of, array_view, copy_bytes, entry, length_value, name_bytes, nm, Dictionary, Entries,
    Object, Stream, Value,
};
use crate::PdfError;
use crate::units::{scale_micros, Fixed};

verus! {

/// The weight of a font variant.
#[derive(Debug, Clone, Copy, PartialEq, Eq, Structural)]
pub enum FontWeight {
    Regular,
    Bold,
}

impl Default for FontWeight {
    fn default() -> (w: FontWeight)
        ensures
            w == FontWeight::Regular,
    {
        FontWeight::Regular
    }
}

/// The slant of a font variant.
#[derive(Debug, Clone, Copy, PartialEq, Eq, Structural)]
pub enum FontStyle {
    Normal,
    Italic,
}

impl Default for FontStyle {
    fn default() -> (s: FontStyle)
        ensures
            s == FontStyle::Normal,
    {
        FontStyle::Normal
    }
}

/// Whether the characters stand in strictly ascending order of code point.
pub open spec fn ascending(s: Seq<char>) -> bool {
    forall|i: int, j: int| 0 <= i < j < s.len() ==> s[i] < s[j]
}

/// Puts `c` into the ascending list `v`, unless it is there already.
pub fn insert_char(v: &mut Vec<char>, c: char)
    requires
        ascending(old(v)@),
    ensures
        ascending(final(v)@),
        forall|x: char| final(v)@.contains(x) <==> (old(v)@.contains(x) || x == c),
        old(v)@.contains(c) ==> final(v)@ == old(v)@,
{
    let mut i: usize = 0;
    while i < v.len() && v[i] < c
        invariant
            i <= v.len(),
            v@ == old(v)@,
            forall|j: int| 0 <= j < i ==> v@[j] < c,
        decreases v.len() - i,
    {
        i += 1;
    }
    if i < v.len() && v[i] == c {
        assert(v@.contains(c));
        return;
    }
    assert(!old(v)@.contains(c)) by {
        assert forall|j: int| 0 <= j < v.len() implies v@[j] != c by {
            if j >= i {
                assert(v@[i as int] <= v@[j]);
            }
        }
    }
    v.insert(i, c);
    assert(v@ == old(v)@.insert(i as int, c));
    assert forall|x: char| v@.contains(x) <==> (old(v)@.contains(x) || x == c) by {
        if old(v)@.contains(x) {
            let k = choose|k: int| 0 <= k < old(v)@.len() && old(v)@[k] == x;
            if k < i {
                assert(v@[k] == x);
            } else {
                assert(v@[k + 1] == x);
            }
        }
        if x == c {
            assert(v@[i as int] == c);
        }
        if v@.contains(x) {
            let k = choose|k: int| 0 <= k < v@.len() && v@[k] == x;
            if k < i {
                assert(old(v)@[k] == x);
            } else if k > i {
                assert(old(v)@[k - 1] == x);
            }
        }
    }
}


/// A subset of a font file together with the renumbering of its glyphs.
pub struct FontSubset {
    /// The subset font file.
    pub data: Vec<u8>,
    /// For each glyph of the subset, in order, its glyph id in the full font.
    pub keep: Vec<u16>,
    /// The characters that the subset was made for, ascending.
    pub chars: Vec<char>,
    /// For each of `chars`, its glyph id in the subset.
    pub gids: Vec<u16>,
}

/// One TrueType font file, the characters used from it, and its subset once
/// one was made.
pub struct FontData {
    pub(crate) name: String,
    pub(crate) ttf_data: Vec<u8>,
    pub(crate) used_chars: Vec<char>,
    pub(crate) parsed: bool,
    pub(crate) subset: Option<FontSubset>,
}

/// The sum of the advances that `advance` gives for the characters of `text`.
pub open spec fn advance_sum(advance: spec_fn(char) -> Option<u16>, text: Seq<char>) -> nat
    decreases text.len(),
{
    if text.len() == 0 {
        0
    } else {
        advance_sum(advance, text.drop_last()) + (match advance(text.last()) {
            Some(a) => a as nat,
            None => 0,
        })
    }
}

/// The glyph that a font file maps `c` to; none where the font has no face.
pub open spec fn glyph_of(parsed: bool, data: Seq<u8>, c: char) -> Option<u16> {
    if parsed {
        ttf_glyph_index(data, c)
    } else {
        None
    }
}

/// The advance of the glyph that a font file has for `c`.
pub open spec fn advance_of(parsed: bool, data: Seq<u8>, c: char) -> Option<u16> {
    match glyph_of(parsed, data, c) {
        Some(g) => ttf_glyph_advance(data, g),
        None => None,
    }
}

/// The advances of a font file, character by character.
pub open spec fn advances(parsed: bool, data: Seq<u8>) -> spec_fn(char) -> Option<u16> {
    |c: char| advance_of(parsed, data, c)
}

impl FontSubset {
    /// The lists fit together: one glyph id per character, each within the
    /// subset, whose first glyph is glyph 0 of the full font.
    pub open spec fn wf(&self) -> bool {
        &&& ascending(self.chars@)
        &&& self.gids@.len() == self.chars@.len()
        &&& 1 <= self.keep@.len() <= 0xFFFF
        &&& self.keep@[0] == 0
        &&& forall|i: int| 0 <= i < self.gids@.len() ==> (#[trigger] self.gids@[i]) < self.keep@.len()
        &&& forall|i: int, j: int|
            0 <= i < j < self.keep@.len() ==> self.keep@[i] != self.keep@[j]
        &&& forall|k: int| 1 <= k < self.keep@.len() ==> #[trigger] self.gids@.contains(k as u16)
    }
}

impl FontData {
    #[verifier::type_invariant]
    pub open(crate) spec fn wf(&self) -> bool {
        &&& ascending(self.used_chars@)
        &&& match self.subset {
            Some(s) => s.wf() && forall|i: int|
                0 <= i < s.chars@.len() ==> self.used_chars@.contains(#[trigger] s.chars@[i]),
            None => true,
        }
    }

    /// The font's name.
    pub open(crate) spec fn spec_name(&self) -> Seq<char> {
        self.name@
    }

    /// The font file's bytes.
    pub open(crate) spec fn spec_data(&self) -> Seq<u8> {
        self.ttf_data@
    }

    /// The characters used so far, ascending.
    pub open(crate) spec fn used(&self) -> Seq<char> {
        self.used_chars@
    }

    /// The subset made last, where one was made.
    pub open(crate) spec fn spec_subset(&self) -> Option<FontSubset> {
        self.subset
    }

    /// Whether the font file parsed when the font was made.
    pub open(crate) spec fn has_face(&self) -> bool {
        self.parsed
    }

    /// The glyph that the font file maps `c` to.
    pub open(crate) spec fn spec_glyph_id(&self, c: char) -> Option<u16> {
        glyph_of(self.parsed, self.ttf_data@, c)
    }

    /// Whether the font has a glyph of its own for `c`.
    pub open(crate) spec fn spec_has_glyph(&self, c: char) -> bool {
        match self.spec_glyph_id(c) {
            Some(g) => g != 0,
            None => false,
        }
    }

    /// The advance of the glyph for `c`, in font units.
    pub open(crate) spec fn spec_glyph_advance(&self, c: char) -> Option<u16> {
        advance_of(self.parsed, self.ttf_data@, c)
    }

    pub open(crate) spec fn spec_units_per_em(&self) -> u16 {
        if self.parsed {
            match ttf_units_per_em(self.ttf_data@) {
                Some(u) => u,
                None => 1000,
            }
        } else {
            1000
        }
    }

    pub open(crate) spec fn spec_ascender(&self) -> i16 {
        if self.parsed {
            match ttf_ascender(self.ttf_data@) {
                Some(a) => a,
                None => 800,
            }
        } else {
            800
        }
    }

    pub open(crate) spec fn spec_descender(&self) -> i16 {
        if self.parsed {
            match ttf_descender(self.ttf_data@) {
                Some(d) => d,
                None => (-200i16),
            }
        } else {
            (-200i16)
        }
    }

    /// The width of `text` in font units, before any limit.
    pub open(crate) spec fn spec_text_width(&self, text: Seq<char>) -> nat {
        advance_sum(advances(self.parsed, self.ttf_data@), text)
    }

    /// The width of `text` set at `size`, in millionths of a point.
    pub open(crate) spec fn spec_width_points(&self, text: Seq<char>, size: Fixed) -> i64 {
        scale_micros(
            size.micros,
            capped_u32(self.spec_text_width(text)),
            self.spec_units_per_em() as u32,
        )
    }

    /// A font from the bytes of a TrueType file. Fails where the bytes do not
    /// parse as a font.
    pub fn from_ttf(name: &str, ttf_data: &[u8]) -> (r: Result<FontData, crate::PdfError>)
        ensures
            match r {
                Ok(f) => {
                    &&& ttf_parse_failure(ttf_data@) is None
                    &&& f.spec_name() == name@
                    &&& f.spec_data() == ttf_data@
                    &&& f.used().len() == 0
                    &&& f.has_face()
                    &&& f.spec_subset() is None
                    &&& f.wf()
                },
                Err(e) => match ttf_parse_failure(ttf_data@) {
                    Some(msg) => e matches crate::PdfError::FontParseError(m) && m@ == msg,
                    None => false,
                },
            },
    {
        match face_parse_failure(ttf_data) {
            Some(msg) => Err(crate::PdfError::FontParseError(msg)),
            None => Ok(
                FontData {
                    name: name.to_owned(),
                    ttf_data: crate::object::copy_bytes(ttf_data),
                    used_chars: Vec::new(),
                    parsed: true,
                    subset: None,
                },
            ),
        }
    }

    /// A font that keeps the bytes without a parsed face: it has no glyphs
    /// and reports the default metrics.
    pub fn without_face(name: &str, ttf_data: &[u8]) -> (f: FontData)
        ensures
            f.spec_name() == name@,
            f.spec_data() == ttf_data@,
            f.used().len() == 0,
            !f.has_face(),
            f.spec_subset() is None,
            f.wf(),
    {
        FontData {
            name: name.to_owned(),
            ttf_data: crate::object::copy_bytes(ttf_data),
            used_chars: Vec::new(),
            parsed: false,
            subset: None,
        }
    }

    pub fn name(&self) -> (r: &String)
        ensures
            r@ == self.spec_name(),
    {
        &self.name
    }

    pub fn ttf_data(&self) -> (r: &Vec<u8>)
        ensures
            r@ == self.spec_data(),
    {
        &self.ttf_data
    }

    /// The characters used so far, in ascending order.
    pub fn used_chars(&self) -> (r: &Vec<char>)
        ensures
            r@ == self.used(),
            ascending(r@),
    {
        proof {
            use_type_invariant(self);
        }
        &self.used_chars
    }

    /// Whether the used characters are those of `before` and those of `text`.
    pub open(crate) spec fn uses_also(&self, before: FontData, text: Seq<char>) -> bool {
        forall|c: char|
            #![trigger self.used().contains(c)]
            self.used().contains(c) <==> (before.used().contains(c) || text.contains(c))
    }

    /// Adds the characters of `text` to the used characters.
    pub fn add_chars(&mut self, text: &str)
        ensures
            final(self).uses_also(*old(self), text@),
            final(self).spec_name() == old(self).spec_name(),
            final(self).spec_data() == old(self).spec_data(),
            final(self).has_face() == old(self).has_face(),
            final(self).spec_subset() == old(self).spec_subset(),
            final(self).wf(),
    {
        proof {
            use_type_invariant(&*self);
        }
        let chars = chars_of(text);
        let mut used: Vec<char> = Vec::new();
        let mut k: usize = 0;
        while k < self.used_chars.len()
            invariant
                k <= self.used_chars.len(),
                *self == *old(self),
                used@ == self.used_chars@.take(k as int),
            decreases self.used_chars.len() - k,
        {
            used.push(self.used_chars[k]);
            k += 1;
            assert(used@ =~= self.used_chars@.take(k as int));
        }
        assert(used@ =~= self.used_chars@);
        let ghost before = used@;
        let mut i: usize = 0;
        while i < chars.len()
            invariant
                i <= chars.len(),
                ascending(used@),
                forall|c: char|
                    used@.contains(c) <==> (before.contains(c) || chars@.take(i as int).contains(
                        c,
                    )),
            decreases chars.len() - i,
        {
            let ghost prev = used@;
            let ghost seen = chars@.take(i as int);
            assert(forall|c: char| prev.contains(c) <==> (before.contains(c) || seen.contains(c)));
            insert_char(&mut used, chars[i]);
            i += 1;
            assert forall|c: char|
                used@.contains(c) <==> (before.contains(c) || chars@.take(i as int).contains(
                    c,
                )) by {
                let t0 = seen;
                let t1 = chars@.take(i as int);
                assert(t1 =~= t0.push(chars@[i - 1]));
                assert(used@.contains(c) <==> (prev.contains(c) || c == chars@[i - 1]));
                assert(prev.contains(c) <==> (before.contains(c) || t0.contains(c)));
                if t1.contains(c) {
                    let k = choose|k: int| 0 <= k < t1.len() && t1[k] == c;
                    if k < i - 1 {
                        assert(t0[k] == c);
                    }
                }
                if t0.contains(c) {
                    let k = choose|k: int| 0 <= k < t0.len() && t0[k] == c;
                    assert(t1[k] == c);
                }
                if c == chars@[i - 1] {
                    assert(t1[i - 1] == c);
                }
            }
        }
        assert(chars@.take(chars.len() as int) =~= chars@);
        proof {
            if self.subset is Some {
                let sub = self.subset->Some_0;
                assert forall|j: int| 0 <= j < sub.chars@.len() implies used@.contains(
                    #[trigger] sub.chars@[j],
                ) by {
                    assert(before.contains(sub.chars@[j]));
                }
            }
        }
        self.used_chars = used;
    }
}


/// The smaller of `sum` and the largest `u32`.
pub open spec fn capped_u32(sum: nat) -> u32 {
    if sum > u32::MAX {
        u32::MAX
    } else {
        sum as u32
    }
}

impl FontData {
    /// The glyph id for a character.
    pub fn glyph_id(&self, c: char) -> (r: Option<u16>)
        ensures
            r == self.spec_glyph_id(c),
    {
        if self.parsed {
            face_glyph_index(self.ttf_data.as_slice(), c)
        } else {
            None
        }
    }

    /// Whether the font has a glyph for `c`: a glyph id that is not zero.
    pub fn has_glyph(&self, c: char) -> (r: bool)
        ensures
            r == self.spec_has_glyph(c),
    {
        match self.glyph_id(c) {
            Some(g) => g != 0,
            None => false,
        }
    }

    /// The advance width of the glyph for `c`, in font units.
    pub fn glyph_advance(&self, c: char) -> (r: Option<u16>)
        ensures
            r == self.spec_glyph_advance(c),
    {
        match self.glyph_id(c) {
            Some(g) => face_glyph_advance(self.ttf_data.as_slice(), g),
            None => None,
        }
    }

    /// The font's units per em; 1000 where it has no face.
    pub fn units_per_em(&self) -> (r: u16)
        ensures
            r == self.spec_units_per_em(),
    {
        if self.parsed {
            match face_units_per_em(self.ttf_data.as_slice()) {
                Some(u) => u,
                None => 1000,
            }
        } else {
            1000
        }
    }

    /// The font's ascender; 800 where it has no face.
    pub fn ascender(&self) -> (r: i16)
        ensures
            r == self.spec_ascender(),
    {
        if self.parsed {
            match face_ascender(self.ttf_data.as_slice()) {
                Some(a) => a,
                None => 800,
            }
        } else {
            800
        }
    }

    /// The font's descender; -200 where it has no face.
    pub fn descender(&self) -> (r: i16)
        ensures
            r == self.spec_descender(),
    {
        if self.parsed {
            match face_descender(self.ttf_data.as_slice()) {
                Some(d) => d,
                None => -200,
            }
        } else {
            -200
        }
    }

    /// The width of `text` in font units: the sum of the advances of its
    /// characters, those without a glyph left out, and no more than the
    /// largest `u32`.
    pub fn text_width(&self, text: &str) -> (w: u32)
        ensures
            w == capped_u32(self.spec_text_width(text@)),
    {
        let chars = chars_of(text);
        let ghost advance = advances(self.parsed, self.ttf_data@);
        let mut sum: u32 = 0;
        let mut i: usize = 0;
        while i < chars.len()
            invariant
                i <= chars.len(),
                advance == advances(self.parsed, self.ttf_data@),
                sum == capped_u32(advance_sum(advance, chars@.take(i as int))),
            decreases chars.len() - i,
        {
            let a: u32 = match self.glyph_advance(chars[i]) {
                Some(a) => a as u32,
                None => 0,
            };
            proof {
                let t1 = chars@.take(i + 1);
                assert(t1.drop_last() =~= chars@.take(i as int));
                assert(t1.last() == chars@[i as int]);
            }
            sum = if sum > u32::MAX - a {
                u32::MAX
            } else {
                sum + a
            };
            i += 1;
        }
        assert(chars@.take(chars.len() as int) =~= chars@);
        sum
    }

    /// The width of `text` set at `size`: its width in font units times
    /// `size`, divided by the units per em.
    pub fn text_width_points(&self, text: &str, size: Fixed) -> (w: Fixed)
        ensures
            w.micros == self.spec_width_points(text@, size),
    {
        let width = self.text_width(text);
        size.scale(width, self.units_per_em() as u32)
    }
}


/// The first position of `x` in `s` at or after `from`; the length of `s`
/// where it does not occur.
pub open spec fn first_index<T>(s: Seq<T>, x: T, from: int) -> int
    decreases s.len() - from,
{
    if from < 0 || from >= s.len() {
        s.len() as int
    } else if s[from] == x {
        from
    } else {
        first_index(s, x, from + 1)
    }
}

pub proof fn lemma_first_index<T>(s: Seq<T>, x: T, from: int, i: int)
    requires
        0 <= from <= i <= s.len(),
        i < s.len() ==> s[i] == x,
        forall|j: int| from <= j < i ==> s[j] != x,
    ensures
        first_index(s, x, from) == i,
    decreases s.len() - from,
{
    if from < i {
        lemma_first_index(s, x, from + 1, i);
    }
}

pub proof fn lemma_first_index_bounds<T>(s: Seq<T>, x: T, from: int)
    requires
        0 <= from <= s.len(),
    ensures
        from <= first_index(s, x, from) <= s.len(),
        first_index(s, x, from) < s.len() ==> s[first_index(s, x, from)] == x,
        forall|j: int| from <= j < first_index(s, x, from) ==> s[j] != x,
    decreases s.len() - from,
{
    if from < s.len() && s[from] != x {
        lemma_first_index_bounds(s, x, from + 1);
    }
}

/// The glyphs to keep after one more glyph of the full font was asked for,
/// and the number under which that glyph is kept.
pub open spec fn keep_glyph(keep: Seq<u16>, glyph: u16) -> (Seq<u16>, int) {
    let i = first_index(keep, glyph, 0);
    if i < keep.len() {
        (keep, i)
    } else {
        (keep.push(glyph), keep.len() as int)
    }
}

/// The renumbering for a list of glyphs of the full font: the glyphs to
/// keep, glyph 0 first and the others in the order in which they first
/// occur, and for each glyph of the list its new number.
pub open spec fn glyph_plan(glyphs: Seq<u16>) -> (Seq<u16>, Seq<int>)
    decreases glyphs.len(),
{
    if glyphs.len() == 0 {
        (seq![0u16], Seq::empty())
    } else {
        let (keep, numbers) = glyph_plan(glyphs.drop_last());
        let (keep2, n) = keep_glyph(keep, glyphs.last());
        (keep2, numbers.push(n))
    }
}

/// In a plan the kept glyphs differ from each other and start with glyph 0,
/// every number points at the glyph it renumbers, and a number is zero
/// exactly for glyph 0.
pub proof fn lemma_glyph_plan(glyphs: Seq<u16>)
    ensures
        ({
            let (keep, numbers) = glyph_plan(glyphs);
            &&& numbers.len() == glyphs.len()
            &&& 1 <= keep.len() <= glyphs.len() + 1
            &&& keep[0] == 0
            &&& forall|i: int, j: int| 0 <= i < j < keep.len() ==> keep[i] != keep[j]
            &&& forall|i: int|
                0 <= i < glyphs.len() ==> 0 <= #[trigger] numbers[i] < keep.len()
                    && keep[numbers[i]] == glyphs[i]
            &&& forall|i: int|
                0 <= i < glyphs.len() ==> ((#[trigger] numbers[i]) != 0 <==> glyphs[i] != 0)
            &&& forall|k: int| 1 <= k < keep.len() ==> #[trigger] numbers.contains(k)
        }),
    decreases glyphs.len(),
{
    if glyphs.len() > 0 {
        let before = glyphs.drop_last();
        lemma_glyph_plan(before);
        let (keep, numbers) = glyph_plan(before);
        let g = glyphs.last();
        lemma_first_index_bounds(keep, g, 0);
        let (keep2, n) = keep_glyph(keep, g);
        let numbers2 = numbers.push(n);
        assert forall|i: int| 0 <= i < glyphs.len() implies 0 <= #[trigger] numbers2[i]
            < keep2.len() && keep2[numbers2[i]] == glyphs[i] by {
            if i < before.len() {
                assert(numbers2[i] == numbers[i]);
                assert(before[i] == glyphs[i]);
            }
        }
        assert forall|i: int| 0 <= i < glyphs.len() implies ((#[trigger] numbers2[i]) != 0
            <==> glyphs[i] != 0) by {
            if i < before.len() {
                assert(numbers2[i] == numbers[i]);
                assert(before[i] == glyphs[i]);
            }
        }
        assert forall|k: int| 1 <= k < keep2.len() implies #[trigger] numbers2.contains(k) by {
            if k < keep.len() {
                assert(numbers.contains(k));
                let i = choose|i: int| 0 <= i < numbers.len() && numbers[i] == k;
                assert(numbers2[i] == k);
            } else {
                assert(numbers2[glyphs.len() - 1] == k);
            }
        }
    }
}


/// A plan never keeps fewer glyphs than the plan for a shorter list.
pub proof fn lemma_plan_prefix(glyphs: Seq<u16>, i: int)
    requires
        0 <= i <= glyphs.len(),
    ensures
        glyph_plan(glyphs.take(i)).0.len() <= glyph_plan(glyphs).0.len(),
    decreases glyphs.len() - i,
{
    if i < glyphs.len() {
        assert(glyphs.drop_last().take(i) =~= glyphs.take(i));
        lemma_plan_prefix(glyphs.drop_last(), i);
    } else {
        assert(glyphs.take(i) =~= glyphs);
    }
}

impl FontData {
    /// The glyph of the full font that stands for `c`; glyph 0 where the
    /// font has none.
    pub open(crate) spec fn full_gid(&self, c: char) -> u16 {
        match self.spec_glyph_id(c) {
            Some(g) => g,
            None => 0,
        }
    }

    /// The glyphs of the full font for the used characters, in their order.
    pub open(crate) spec fn used_gids(&self) -> Seq<u16> {
        Seq::new(self.used().len(), |i: int| self.full_gid(self.used()[i]))
    }

    /// Whether glyphs of this font are written: it has a face and
    /// characters were used from it.
    pub open(crate) spec fn is_used(&self) -> bool {
        self.has_face() && self.used().len() > 0
    }

    /// Whether a subset is made for this font: glyphs of it are written,
    /// the glyphs to keep are no more than a font can number, and the font
    /// file can be handed to the subsetter with them.
    pub open(crate) spec fn wants_subset(&self) -> bool {
        &&& self.is_used()
        &&& glyph_plan(self.used_gids()).0.len() <= 0xFFFF
        &&& can_subset(self.spec_data(), glyph_plan(self.used_gids()).0)
    }

    /// Whether the subset of this font cannot be made: one is wanted, and
    /// the subsetter fails on the font file.
    pub open(crate) spec fn subset_fails(&self) -> bool {
        &&& self.wants_subset()
        &&& subset_result(self.spec_data(), glyph_plan(self.used_gids()).0) is Err
    }

    /// Makes the subset for the characters used so far and the renumbering
    /// of their glyphs. Nothing is done for a font without a face or without
    /// used characters. A font whose file cannot be handed to the subsetter
    /// is left without a subset: it is embedded whole, and its glyphs are
    /// written under the ids of the full font.
    pub fn create_subset(&mut self) -> (r: Result<(), PdfError>)
        ensures
            r is Err <==> old(self).subset_fails(),
            final(self).used_gids() == old(self).used_gids(),
            final(self).is_used() == old(self).is_used(),
            final(self).wants_subset() == old(self).wants_subset(),
            !old(self).is_used() ==> final(self).spec_subset() == old(self).spec_subset(),
            old(self).is_used() && !old(self).wants_subset() ==> final(self).spec_subset() is None,
            final(self).spec_name() == old(self).spec_name(),
            final(self).spec_data() == old(self).spec_data(),
            final(self).used() == old(self).used(),
            final(self).has_face() == old(self).has_face(),
            final(self).wf(),
            old(self).wants_subset() && r is Ok ==> final(self).subset_current(),
            old(self).wants_subset() ==> ({
                let (keep, numbers) = glyph_plan(old(self).used_gids());
                match r {
                    Ok(_) => {
                        &&& final(self).spec_subset() matches Some(s)
                        &&& s.chars@ == old(self).used()
                        &&& s.keep@ == keep
                        &&& s.gids@.len() == numbers.len()
                        &&& forall|i: int| 0 <= i < numbers.len() ==> s.gids@[i] == #[trigger] numbers[i]
                        &&& subset_result(old(self).spec_data(), keep) == Ok::<Seq<u8>, Seq<char>>(
                            s.data@,
                        )
                    },
                    Err(e) => {
                        &&& final(self).spec_subset() == old(self).spec_subset()
                        &&& e is FontSubsetError
                        &&& subset_result(old(self).spec_data(), keep) == Err::<Seq<u8>, Seq<char>>(
                            e->FontSubsetError_0@,
                        )
                    },
                }
            }),
    {
        proof {
            use_type_invariant(&*self);
        }
        if !self.parsed || self.used_chars.len() == 0 {
            return Ok(());
        }
        let ghost glyphs = self.used_gids();
        let n = self.used_chars.len();
        let mut keep: Vec<u16> = Vec::new();
        keep.push(0);
        let mut gids: Vec<u16> = Vec::new();
        let mut chars: Vec<char> = Vec::new();
        let mut i: usize = 0;
        while i < n
            invariant
                i <= n,
                n == self.used_chars.len(),
                self.parsed,
                *self == *old(self),
                self.wf(),
                glyphs == self.used_gids(),
                glyphs.len() == n,
                keep@ == glyph_plan(glyphs.take(i as int)).0,
                keep@.len() <= 0xFFFF,
                gids@.len() == i,
                forall|j: int|
                    0 <= j < i ==> gids@[j] == #[trigger] glyph_plan(glyphs.take(i as int)).1[j],
                chars@ == self.used_chars@.take(i as int),
            decreases n - i,
        {
            let c = self.used_chars[i];
            let g: u16 = match self.glyph_id(c) {
                Some(g) => g,
                None => 0,
            };
            let ghost before = glyphs.take(i as int);
            let ghost after = glyphs.take(i + 1);
            proof {
                assert(after.drop_last() =~= before);
                assert(after.last() == g);
                lemma_glyph_plan(before);
                lemma_glyph_plan(after);
            }
            let mut k: usize = 0;
            while k < keep.len() && keep[k] != g
                invariant
                    k <= keep.len(),
                    forall|j: int| 0 <= j < k ==> keep@[j] != g,
                decreases keep.len() - k,
            {
                k += 1;
            }
            proof {
                lemma_first_index(keep@, g, 0, k as int);
            }
            if k == keep.len() {
                if keep.len() >= 0xFFFF {
                    proof {
                        lemma_plan_prefix(glyphs, i + 1);
                    }
                    self.subset = None;
                    assert(self.used_gids() =~= glyphs);
                    return Ok(());
                }
                keep.push(g);
            }
            gids.push(k as u16);
            chars.push(c);
            i += 1;
            assert(chars@ =~= self.used_chars@.take(i as int));
            assert forall|j: int| 0 <= j < i implies gids@[j] == #[trigger] glyph_plan(
                glyphs.take(i as int),
            ).1[j] by {
                if j < i - 1 {
                    assert(glyph_plan(after).1[j] == glyph_plan(before).1[j]);
                }
            }
        }
        proof {
            assert(glyphs.take(n as int) =~= glyphs);
            assert(chars@ =~= self.used_chars@);
            lemma_glyph_plan(glyphs);
            let (plan_keep, numbers) = glyph_plan(glyphs);
            assert forall|j: int| 0 <= j < gids@.len() implies (#[trigger] gids@[j]) < keep@.len() by {
                assert(gids@[j] == numbers[j]);
            }
            assert forall|k: int| 1 <= k < keep@.len() implies #[trigger] gids@.contains(
                k as u16,
            ) by {
                assert(numbers.contains(k));
                let j = choose|j: int| 0 <= j < numbers.len() && numbers[j] == k;
                assert(gids@[j] == k as u16);
            }
        }
        if has_cff_tag(self.ttf_data.as_slice()) || !name_tables_are_fine(self.ttf_data.as_slice())
            || find_spare_id(self.ttf_data.as_slice(), keep.as_slice()).is_none() {
            self.subset = None;
            assert(self.used_gids() =~= glyphs);
            return Ok(());
        }
        match subset_font(self.ttf_data.as_slice(), keep.as_slice()) {
            Ok(data) => {
                self.subset = Some(FontSubset { data, keep, chars, gids });
                assert(self.used_gids() =~= glyphs);
                Ok(())
            },
            Err(msg) => Err(PdfError::FontSubsetError(msg)),
        }
    }
}


/// The four-digit codes of the glyphs that `gid_of` gives for the
/// characters of `text`, one after the other.
pub open spec fn hex_run(gid_of: spec_fn(char) -> u16, text: Seq<char>) -> Seq<char>
    decreases text.len(),
{
    if text.len() == 0 {
        Seq::empty()
    } else {
        hex_run(gid_of, text.drop_last()) + hex4(gid_of(text.last()))
    }
}

impl FontData {
    /// Whether the subset was made for exactly the characters used now:
    /// it holds these characters, the glyphs to keep and their numbers
    /// are those of the plan for them, and its bytes are what the
    /// subsetter gives for the font file and these glyphs.
    pub open(crate) spec fn subset_current(&self) -> bool {
        match self.subset {
            Some(s) => {
                let (keep, numbers) = glyph_plan(self.used_gids());
                &&& s.chars@ == self.used()
                &&& s.keep@ == keep
                &&& s.gids@.len() == numbers.len()
                &&& forall|i: int| 0 <= i < numbers.len() ==> s.gids@[i] == #[trigger] numbers[i]
                &&& subset_result(self.spec_data(), keep) == Ok::<Seq<u8>, Seq<char>>(s.data@)
            },
            None => false,
        }
    }

    /// The glyph id under which `c` is written into content streams: its
    /// number in the subset where there is one, else its glyph in the full
    /// font; 0 where neither knows the character.
    pub open(crate) spec fn spec_encoded_gid(&self, c: char) -> u16 {
        match self.subset {
            Some(s) => {
                let i = first_index(s.chars@, c, 0);
                if i < s.chars@.len() && i < s.gids@.len() {
                    s.gids@[i]
                } else {
                    0
                }
            },
            None => self.full_gid(c),
        }
    }

    /// The glyph id under which `c` is written into content streams.
    pub fn encoded_gid(&self, c: char) -> (g: u16)
        ensures
            g == self.spec_encoded_gid(c),
    {
        match &self.subset {
            Some(s) => {
                let mut i: usize = 0;
                while i < s.chars.len() && s.chars[i] != c
                    invariant
                        i <= s.chars.len(),
                        forall|j: int| 0 <= j < i ==> s.chars@[j] != c,
                    decreases s.chars.len() - i,
                {
                    i += 1;
                }
                proof {
                    lemma_first_index(s.chars@, c, 0, i as int);
                }
                if i < s.chars.len() && i < s.gids.len() {
                    s.gids[i]
                } else {
                    0
                }
            },
            None => match self.glyph_id(c) {
                Some(g) => g,
                None => 0,
            },
        }
    }

    /// The text as a hexadecimal string of glyph ids of the full font.
    pub fn encode_text_hex(&self, text: &str) -> (r: String)
        ensures
            r@ == seq!['<'] + hex_run(|c: char| self.full_gid(c), text@) + seq!['>'],
    {
        let chars = chars_of(text);
        let ghost gid_of = |c: char| self.full_gid(c);
        let mut out = String::new();
        push_char(&mut out, '<');
        let mut i: usize = 0;
        while i < chars.len()
            invariant
                i <= chars.len(),
                gid_of == (|c: char| self.full_gid(c)),
                out@ == seq!['<'] + hex_run(gid_of, chars@.take(i as int)),
            decreases chars.len() - i,
        {
            let g: u16 = match self.glyph_id(chars[i]) {
                Some(g) => g,
                None => 0,
            };
            proof {
                let t1 = chars@.take(i + 1);
                assert(t1.drop_last() =~= chars@.take(i as int));
                assert(t1.last() == chars@[i as int]);
            }
            push_hex4(&mut out, g);
            i += 1;
            assert(out@ =~= seq!['<'] + hex_run(gid_of, chars@.take(i as int)));
        }
        assert(chars@.take(chars.len() as int) =~= chars@);
        push_char(&mut out, '>');
        assert(out@ =~= seq!['<'] + hex_run(gid_of, text@) + seq!['>']);
        out
    }

    /// The text as a hexadecimal string of the glyph ids under which its
    /// characters are written: renumbered where a subset was made.
    pub fn encode_text_hex_remapped(&self, text: &str) -> (r: String)
        ensures
            r@ == seq!['<'] + hex_run(|c: char| self.spec_encoded_gid(c), text@) + seq!['>'],
    {
        let chars = chars_of(text);
        let ghost gid_of = |c: char| self.spec_encoded_gid(c);
        let mut out = String::new();
        push_char(&mut out, '<');
        let mut i: usize = 0;
        while i < chars.len()
            invariant
                i <= chars.len(),
                gid_of == (|c: char| self.spec_encoded_gid(c)),
                out@ == seq!['<'] + hex_run(gid_of, chars@.take(i as int)),
            decreases chars.len() - i,
        {
            let g: u16 = self.encoded_gid(chars[i]);
            proof {
                let t1 = chars@.take(i + 1);
                assert(t1.drop_last() =~= chars@.take(i as int));
                assert(t1.last() == chars@[i as int]);
            }
            push_hex4(&mut out, g);
            i += 1;
            assert(out@ =~= seq!['<'] + hex_run(gid_of, chars@.take(i as int)));
        }
        assert(chars@.take(chars.len() as int) =~= chars@);
        push_char(&mut out, '>');
        assert(out@ =~= seq!['<'] + hex_run(gid_of, text@) + seq!['>']);
        out
    }
}

/// Once the subset is made, a used character is written under a glyph id
/// other than zero exactly where the font has a glyph for it.
pub proof fn law_remap_coverage(f: FontData, c: char)
    requires
        f.wf(),
        f.subset_current(),
        f.used().contains(c),
    ensures
        f.spec_encoded_gid(c) != 0 <==> f.spec_has_glyph(c),
{
    let s = f.spec_subset()->Some_0;
    let i = choose|i: int| 0 <= i < f.used().len() && f.used()[i] == c;
    assert forall|j: int| 0 <= j < i implies s.chars@[j] != c by {
        assert(s.chars@[j] < s.chars@[i]);
    }
    lemma_first_index(s.chars@, c, 0, i);
    lemma_glyph_plan(f.used_gids());
    let (keep, numbers) = glyph_plan(f.used_gids());
    assert(s.gids@[i] == numbers[i]);
    assert(f.used_gids()[i] == f.full_gid(c));
}


/// Of a font that is left whole, a character is written under a glyph id
/// other than zero exactly where the font has a glyph for it.
pub proof fn law_whole_coverage(f: FontData, c: char)
    requires
        f.spec_subset() is None,
    ensures
        f.spec_encoded_gid(c) != 0 <==> f.spec_has_glyph(c),
{
}

/// Whether the glyph ids stand in strictly ascending order.
pub open spec fn strictly_ascending(s: Seq<u16>) -> bool {
    forall|i: int, j: int| 0 <= i < j < s.len() ==> s[i] < s[j]
}

/// `s` with `g` put at its place in ascending order, unless it is there.
pub open spec fn sorted_insert(s: Seq<u16>, g: u16) -> Seq<u16>
    decreases s.len(),
{
    if s.len() == 0 {
        seq![g]
    } else if s.last() < g {
        s.push(g)
    } else if s.last() == g {
        s
    } else {
        sorted_insert(s.drop_last(), g).push(s.last())
    }
}

/// The glyph ids among `ids`, each once, in ascending order.
pub open spec fn sorted_glyphs(ids: Seq<Option<u16>>) -> Seq<u16>
    decreases ids.len(),
{
    if ids.len() == 0 {
        Seq::empty()
    } else {
        let rest = sorted_glyphs(ids.drop_last());
        match ids.last() {
            Some(g) => sorted_insert(rest, g),
            None => rest,
        }
    }
}

/// Inserting keeps the order and adds exactly the one glyph id.
pub proof fn lemma_sorted_insert(s: Seq<u16>, g: u16)
    requires
        strictly_ascending(s),
    ensures
        strictly_ascending(sorted_insert(s, g)),
        forall|x: u16|
            #![trigger sorted_insert(s, g).contains(x)]
            sorted_insert(s, g).contains(x) <==> (s.contains(x) || x == g),
        sorted_insert(s, g).len() <= s.len() + 1,
    decreases s.len(),
{
    let r = sorted_insert(s, g);
    if s.len() == 0 {
        assert(r[0] == g);
    } else if s.last() < g {
        assert(r[s.len() as int] == g);
        assert forall|x: u16| r.contains(x) <==> (s.contains(x) || x == g) by {
            if s.contains(x) {
                let k = choose|k: int| 0 <= k < s.len() && s[k] == x;
                assert(r[k] == x);
            }
            if r.contains(x) {
                let k = choose|k: int| 0 <= k < r.len() && r[k] == x;
                if k < s.len() {
                    assert(s[k] == x);
                }
            }
        }
    } else if s.last() == g {
        assert(s[s.len() - 1] == g);
    } else {
        let head = s.drop_last();
        lemma_sorted_insert(head, g);
        let h = sorted_insert(head, g);
        assert forall|i: int, j: int| 0 <= i < j < r.len() implies r[i] < r[j] by {
            if j == r.len() - 1 {
                assert(h.contains(h[i]));
                if head.contains(h[i]) {
                    let k = choose|k: int| 0 <= k < head.len() && head[k] == h[i];
                    assert(s[k] < s[s.len() - 1]);
                }
            }
        }
        assert forall|x: u16| r.contains(x) <==> (s.contains(x) || x == g) by {
            if s.contains(x) {
                let k = choose|k: int| 0 <= k < s.len() && s[k] == x;
                if k < head.len() {
                    assert(head[k] == x);
                    assert(head.contains(x));
                    assert(h.contains(x));
                    let m = choose|m: int| 0 <= m < h.len() && h[m] == x;
                    assert(r[m] == x);
                } else {
                    assert(r[r.len() - 1] == x);
                }
            }
            if x == g {
                assert(h.contains(g));
                let m = choose|m: int| 0 <= m < h.len() && h[m] == x;
                assert(r[m] == x);
            }
            if r.contains(x) {
                let k = choose|k: int| 0 <= k < r.len() && r[k] == x;
                if k < h.len() {
                    assert(h[k] == x);
                    assert(h.contains(x));
                    if head.contains(x) {
                        let m = choose|m: int| 0 <= m < head.len() && head[m] == x;
                        assert(s[m] == x);
                    }
                } else {
                    assert(s[s.len() - 1] == x);
                }
            }
        }
    }
}

/// The sorted glyph ids are strictly ascending and are the ids given.
pub proof fn lemma_sorted_glyphs(ids: Seq<Option<u16>>)
    ensures
        strictly_ascending(sorted_glyphs(ids)),
        forall|x: u16|
            #![trigger sorted_glyphs(ids).contains(x)]
            sorted_glyphs(ids).contains(x) <==> ids.contains(Some(x)),
        sorted_glyphs(ids).len() <= ids.len(),
    decreases ids.len(),
{
    if ids.len() > 0 {
        let head = ids.drop_last();
        lemma_sorted_glyphs(head);
        let rest = sorted_glyphs(head);
        match ids.last() {
            Some(g) => {
                lemma_sorted_insert(rest, g);
            },
            None => {},
        }
        assert forall|x: u16| sorted_glyphs(ids).contains(x) <==> ids.contains(Some(x)) by {
            assert(rest.contains(x) <==> head.contains(Some(x)));
            match ids.last() {
                Some(g) => {
                    assert(sorted_insert(rest, g).contains(x) <==> (rest.contains(x) || x == g));
                },
                None => {},
            }
            if ids.contains(Some(x)) {
                let k = choose|k: int| 0 <= k < ids.len() && ids[k] == Some(x);
                if k < head.len() {
                    assert(head[k] == Some(x));
                }
            }
            if head.contains(Some(x)) {
                let k = choose|k: int| 0 <= k < head.len() && head[k] == Some(x);
                assert(ids[k] == Some(x));
            }
            if ids.last() == Some(x) {
                assert(ids[ids.len() - 1] == Some(x));
            }
        }
    }
}

/// Where `g` goes in the ascending list: after the entries below it.
proof fn lemma_sorted_insert_at(s: Seq<u16>, g: u16, i: int)
    requires
        0 <= i <= s.len(),
        forall|j: int| i <= j < s.len() ==> s[j] > g,
        i > 0 ==> s[i - 1] <= g,
    ensures
        sorted_insert(s, g) == (if i > 0 && s[i - 1] == g {
            s
        } else {
            s.insert(i, g)
        }),
    decreases s.len() - i,
{
    if s.len() == 0 {
        assert(seq![g] =~= s.insert(0, g));
    } else if i == s.len() {
        if s.last() < g {
            assert(s.push(g) =~= s.insert(i, g));
        }
    } else {
        let head = s.drop_last();
        lemma_sorted_insert_at(head, g, i);
        if i > 0 && s[i - 1] == g {
            assert(head.push(s.last()) =~= s);
        } else {
            assert(head.insert(i, g).push(s.last()) =~= s.insert(i, g));
        }
    }
}

/// Puts `g` into the ascending list `v`, unless it is there already.
pub fn insert_gid(v: &mut Vec<u16>, g: u16)
    ensures
        final(v)@ == sorted_insert(old(v)@, g),
{
    let mut i: usize = v.len();
    while i > 0 && v[i - 1] > g
        invariant
            i <= v.len(),
            v@ == old(v)@,
            forall|j: int| i <= j < v.len() ==> v@[j] > g,
        decreases i,
    {
        i -= 1;
    }
    proof {
        lemma_sorted_insert_at(v@, g, i as int);
    }
    if i > 0 && v[i - 1] == g {
        return;
    }
    v.insert(i, g);
}

/// The `W` array for glyph ids with their widths: each id followed by an
/// array that holds its width.
pub open spec fn widths_value(w: Seq<(u16, u16)>) -> Value {
    Value::Array(
        Seq::new(
            2 * w.len(),
            |i: int|
                if i % 2 == 0 {
                    Value::Integer(w[i / 2].0 as i64)
                } else {
                    Value::Array(seq![Value::Integer(w[i / 2].1 as i64)])
                },
        ),
    )
}

/// The `W` array for the given glyph ids and widths.
pub fn widths_array(w: &Vec<(u16, u16)>) -> (r: Object)
    ensures
        r@ == widths_value(w@),
{
    let mut items: Vec<Object> = Vec::new();
    let mut i: usize = 0;
    while i < w.len()
        invariant
            i <= w.len(),
            items.len() == 2 * i,
            forall|j: int|
                0 <= j < 2 * i ==> (#[trigger] items[j])@ == widths_value(w@)->Array_0[j],
        decreases w.len() - i,
    {
        let pair = w[i];
        let mut inner: Vec<Object> = Vec::new();
        inner.push(Object::Integer(pair.1 as i64));
        let width = Object::Array(inner);
        assert(width@ == Value::Array(seq![Value::Integer(pair.1 as i64)])) by {
            assert(array_view(&inner) =~= seq![Value::Integer(pair.1 as i64)]);
        }
        items.push(Object::Integer(pair.0 as i64));
        items.push(width);
        i += 1;
    }
    let r = Object::Array(items);
    assert(array_view(&items) =~= widths_value(w@)->Array_0);
    r
}


impl FontData {
    /// The glyph ids that the `W` array lists: those under which the used
    /// characters are written, ascending. A font without a face lists none.
    pub open(crate) spec fn spec_width_gids(&self) -> Seq<u16> {
        if !self.parsed {
            Seq::empty()
        } else {
            match self.subset {
                Some(s) => {
                    let start: int = if s.gids@.contains(0u16) {
                        0
                    } else {
                        1
                    };
                    Seq::new((s.keep@.len() - start) as nat, |k: int| (k + start) as u16)
                },
                None => sorted_glyphs(
                    Seq::new(self.used().len(), |i: int| self.spec_glyph_id(self.used()[i])),
                ),
            }
        }
    }

    /// The glyph of the full font that is written under the glyph id `gid`.
    pub open(crate) spec fn full_glyph_of(&self, gid: u16) -> u16 {
        match self.subset {
            Some(s) => if gid < s.keep@.len() {
                s.keep@[gid as int]
            } else {
                0
            },
            None => gid,
        }
    }

    /// The width listed for the glyph id `gid`: the advance of its glyph,
    /// 1000 where the font gives none.
    pub open(crate) spec fn spec_width_of(&self, gid: u16) -> u16 {
        match ttf_glyph_advance(self.ttf_data@, self.full_glyph_of(gid)) {
            Some(a) => a,
            None => 1000,
        }
    }

    /// The glyph ids of the `W` array with their widths.
    pub open(crate) spec fn spec_widths(&self) -> Seq<(u16, u16)> {
        Seq::new(
            self.spec_width_gids().len(),
            |i: int| (self.spec_width_gids()[i], self.spec_width_of(self.spec_width_gids()[i])),
        )
    }

    fn width_of(&self, gid: u16) -> (w: u16)
        ensures
            w == self.spec_width_of(gid),
    {
        let full: u16 = match &self.subset {
            Some(s) => if (gid as usize) < s.keep.len() {
                s.keep[gid as usize]
            } else {
                0
            },
            None => gid,
        };
        match face_glyph_advance(self.ttf_data.as_slice(), full) {
            Some(a) => a,
            None => 1000,
        }
    }

    /// The glyph ids under which the used characters are written, ascending,
    /// each with its width.
    pub fn glyph_widths(&self) -> (r: Vec<(u16, u16)>)
        ensures
            r@ == self.spec_widths(),
    {
        proof {
            use_type_invariant(self);
        }
        let mut gids: Vec<u16> = Vec::new();
        if self.parsed {
            match &self.subset {
                Some(s) => {
                    let mut zero_used = false;
                    let mut i: usize = 0;
                    while i < s.gids.len()
                        invariant
                            i <= s.gids.len(),
                            zero_used == s.gids@.take(i as int).contains(0u16),
                        decreases s.gids.len() - i,
                    {
                        let ghost seen = s.gids@.take(i as int);
                        if s.gids[i] == 0 {
                            zero_used = true;
                        }
                        i += 1;
                        proof {
                            let now = s.gids@.take(i as int);
                            assert(now =~= seen.push(s.gids@[i - 1]));
                            if seen.contains(0u16) {
                                let k = choose|k: int| 0 <= k < seen.len() && seen[k] == 0u16;
                                assert(now[k] == 0u16);
                            }
                            if s.gids@[i - 1] == 0u16 {
                                assert(now[i - 1] == 0u16);
                            }
                            if now.contains(0u16) {
                                let k = choose|k: int| 0 <= k < now.len() && now[k] == 0u16;
                                if k < i - 1 {
                                    assert(seen[k] == 0u16);
                                }
                            }
                        }
                    }
                    assert(s.gids@.take(s.gids.len() as int) =~= s.gids@);
                    let start: usize = if zero_used {
                        0
                    } else {
                        1
                    };
                    let mut k: usize = start;
                    while k < s.keep.len()
                        invariant
                            start <= k <= s.keep.len(),
                            s.keep.len() <= 0xFFFF,
                            gids@.len() == k - start,
                            forall|j: int| 0 <= j < k - start ==> gids@[j] == (j + start) as u16,
                        decreases s.keep.len() - k,
                    {
                        gids.push(k as u16);
                        k += 1;
                    }
                    assert(gids@ =~= self.spec_width_gids());
                },
                None => {
                    let ghost ids = Seq::new(
                        self.used().len(),
                        |i: int| self.spec_glyph_id(self.used()[i]),
                    );
                    let mut i: usize = 0;
                    while i < self.used_chars.len()
                        invariant
                            i <= self.used_chars.len(),
                            ids == Seq::new(
                                self.used().len(),
                                |i: int| self.spec_glyph_id(self.used()[i]),
                            ),
                            gids@ == sorted_glyphs(ids.take(i as int)),
                        decreases self.used_chars.len() - i,
                    {
                        proof {
                            let t1 = ids.take(i + 1);
                            assert(t1.drop_last() =~= ids.take(i as int));
                            assert(t1.last() == self.spec_glyph_id(self.used()[i as int]));
                        }
                        match self.glyph_id(self.used_chars[i]) {
                            Some(g) => {
                                insert_gid(&mut gids, g);
                            },
                            None => {},
                        }
                        i += 1;
                    }
                    assert(ids.take(ids.len() as int) =~= ids);
                },
            }
        }
        let mut out: Vec<(u16, u16)> = Vec::new();
        let mut i: usize = 0;
        while i < gids.len()
            invariant
                i <= gids.len(),
                gids@ == self.spec_width_gids(),
                out@.len() == i,
                forall|j: int| 0 <= j < i ==> out@[j] == self.spec_widths()[j],
            decreases gids.len() - i,
        {
            let g = gids[i];
            out.push((g, self.width_of(g)));
            i += 1;
        }
        assert(out@ =~= self.spec_widths());
        out
    }

    /// The `W` array of the font: the glyph ids of the used characters,
    /// ascending, each followed by an array with its width.
    pub fn generate_widths_array(&self) -> (r: Object)
        ensures
            r@ == widths_value(self.spec_widths()),
            self.used().len() == 0 ==> r@ == Value::Array(Seq::empty()),
    {
        proof {
            use_type_invariant(self);
            if self.used().len() == 0 {
                law_no_widths(*self);
            }
        }
        let w = self.glyph_widths();
        widths_array(&w)
    }
}

/// A font from which no character was used lists no width.
pub proof fn law_no_widths(f: FontData)
    requires
        f.wf(),
        f.used().len() == 0,
    ensures
        f.spec_width_gids().len() == 0,
        f.spec_widths().len() == 0,
        widths_value(f.spec_widths()) == Value::Array(Seq::empty()),
{
    if f.has_face() {
        match f.spec_subset() {
            Some(s) => {
                if s.chars@.len() > 0 {
                    assert(f.used().contains(s.chars@[0]));
                }
                assert(s.gids@.len() == 0);
                if s.keep@.len() > 1 {
                    let k: int = 1;
                    assert(s.gids@.contains(k as u16));
                }
                assert(f.spec_width_gids() =~= Seq::empty());
            },
            None => {
                assert(Seq::new(f.used().len(), |i: int| f.spec_glyph_id(f.used()[i])).len() == 0);
            },
        }
    }
    assert(f.spec_widths() =~= Seq::empty());
    assert(widths_value(f.spec_widths())->Array_0 =~= Seq::empty());
}

/// The glyph ids in the `W` array stand in strictly ascending order.
pub proof fn law_widths_ascending(f: FontData)
    requires
        f.wf(),
    ensures
        forall|i: int, j: int|
            0 <= i < j < f.spec_widths().len() ==> f.spec_widths()[i].0 < f.spec_widths()[j].0,
        strictly_ascending(f.spec_width_gids()),
{
    if f.has_face() && f.spec_subset() is None {
        lemma_sorted_glyphs(Seq::new(f.used().len(), |i: int| f.spec_glyph_id(f.used()[i])));
    }
}


/// One line of the character map: the glyph id and the code point it shows.
pub open spec fn cmap_line(entry: (u16, char)) -> Seq<char> {
    seq!['<'] + hex4(entry.0) + seq!['>', ' ', '<'] + hex_code(entry.1 as u32) + seq!['>', '\n']
}

/// The lines for the entries from `from` up to `to`.
pub open spec fn cmap_lines(e: Seq<(u16, char)>, from: int, to: int) -> Seq<char>
    decreases to - from,
{
    if from >= to {
        Seq::empty()
    } else {
        cmap_lines(e, from, to - 1) + cmap_line(e[to - 1])
    }
}

/// Where the block that starts at `from` ends: a hundred entries on, or at
/// the end of the `n` entries.
pub open spec fn block_end(from: int, n: int) -> int {
    if from + 100 < n {
        from + 100
    } else {
        n
    }
}

/// The blocks of the character map for the entries from `from` on.
pub open spec fn cmap_blocks(e: Seq<(u16, char)>, from: int) -> Seq<char>
    decreases e.len() - from,
{
    if from < 0 || from >= e.len() {
        Seq::empty()
    } else {
        let to = block_end(from, e.len() as int);
        decimal_chars((to - from) as nat) + " beginbfchar\n"@ + cmap_lines(e, from, to)
            + "endbfchar\n"@ + cmap_blocks(e, to)
    }
}

/// What stands before the blocks of every character map.
pub open spec fn cmap_header() -> Seq<char> {
    "/CIDInit /ProcSet findresource begin\n"@ + "12 dict begin\n"@ + "begincmap\n"@
        + "/CIDSystemInfo << /Registry (Adobe) /Ordering (UCS) /Supplement 0 >> def\n"@
        + "/CMapName /Adobe-Identity-UCS def\n"@ + "/CMapType 2 def\n"@
        + "1 begincodespacerange\n"@ + "<0000> <FFFF>\n"@ + "endcodespacerange\n"@
}

/// What stands after the blocks of every character map.
pub open spec fn cmap_footer() -> Seq<char> {
    "endcmap\n"@ + "CMapName currentdict /CMap defineresource pop\n"@ + "end\n"@ + "end\n"@
}

/// The text of the character map for the given entries.
pub open spec fn cmap_text(e: Seq<(u16, char)>) -> Seq<char> {
    cmap_header() + cmap_blocks(e, 0) + cmap_footer()
}

/// The number of entries in each block, for the entries from `from` on.
pub open spec fn block_sizes(n: int, from: int) -> Seq<int>
    decreases n - from,
{
    if from < 0 || from >= n {
        Seq::empty()
    } else {
        seq![block_end(from, n) - from] + block_sizes(n, block_end(from, n))
    }
}

/// The sum of a list of numbers.
pub open spec fn total(s: Seq<int>) -> int
    decreases s.len(),
{
    if s.len() == 0 {
        0
    } else {
        s[0] + total(s.drop_first())
    }
}

/// Every block of a character map holds at least one entry and at most a
/// hundred, and the blocks together hold as many entries as there are.
pub proof fn law_cmap_blocks(n: int, from: int)
    requires
        0 <= from <= n,
    ensures
        forall|k: int|
            0 <= k < block_sizes(n, from).len() ==> 1 <= #[trigger] block_sizes(n, from)[k] <= 100,
        total(block_sizes(n, from)) == n - from,
    decreases n - from,
{
    if from < n {
        let to = block_end(from, n);
        law_cmap_blocks(n, to);
        let rest = block_sizes(n, to);
        let all = block_sizes(n, from);
        assert(all.drop_first() =~= rest);
        assert forall|k: int| 0 <= k < all.len() implies 1 <= #[trigger] all[k] <= 100 by {
            if k > 0 {
                assert(all[k] == rest[k - 1]);
            }
        }
    }
}

impl FontData {
    /// The entries of the character map: for each used character, ascending,
    /// the glyph id under which it is written.
    pub open(crate) spec fn cmap_entries(&self) -> Seq<(u16, char)> {
        Seq::new(
            self.used().len(),
            |i: int| (self.spec_encoded_gid(self.used()[i]), self.used()[i]),
        )
    }

    /// The text of the `ToUnicode` character map of the font.
    pub fn generate_tounicode_cmap(&self) -> (r: String)
        ensures
            r@ == cmap_text(self.cmap_entries()),
    {
        let ghost e = self.cmap_entries();
        let n = self.used_chars.len();
        let mut out = String::new();
        out.append("/CIDInit /ProcSet findresource begin\n");
        out.append("12 dict begin\n");
        out.append("begincmap\n");
        out.append("/CIDSystemInfo << /Registry (Adobe) /Ordering (UCS) /Supplement 0 >> def\n");
        out.append("/CMapName /Adobe-Identity-UCS def\n");
        out.append("/CMapType 2 def\n");
        out.append("1 begincodespacerange\n");
        out.append("<0000> <FFFF>\n");
        out.append("endcodespacerange\n");
        assert(out@ =~= cmap_header());
        let mut from: usize = 0;
        while from < n
            invariant
                from <= n,
                n == self.used_chars.len(),
                e == self.cmap_entries(),
                e.len() == n,
                out@ + cmap_blocks(e, from as int) == cmap_header() + cmap_blocks(e, 0),
            decreases n - from,
        {
            let to: usize = if n - from > 100 {
                from + 100
            } else {
                n
            };
            let ghost start = out@;
            push_decimal(&mut out, to - from);
            out.append(" beginbfchar\n");
            let ghost head = out@;
            let mut i: usize = from;
            while i < to
                invariant
                    from <= i <= to <= n,
                    n == self.used_chars.len(),
                    e == self.cmap_entries(),
                    out@ == head + cmap_lines(e, from as int, i as int),
                decreases to - i,
            {
                let c = self.used_chars[i];
                let g = self.encoded_gid(c);
                let ghost before = out@;
                push_char(&mut out, '<');
                push_hex4(&mut out, g);
                push_char(&mut out, '>');
                push_char(&mut out, ' ');
                push_char(&mut out, '<');
                push_hex_code(&mut out, c as u32);
                push_char(&mut out, '>');
                push_char(&mut out, '\n');
                assert(out@ =~= before + cmap_line(e[i as int]));
                i += 1;
                assert(out@ =~= head + cmap_lines(e, from as int, i as int));
            }
            out.append("endbfchar\n");
            assert(out@ + cmap_blocks(e, to as int) =~= start + cmap_blocks(e, from as int));
            from = to;
        }
        let ghost body = out@;
        out.append("endcmap\n");
        out.append("CMapName currentdict /CMap defineresource pop\n");
        out.append("end\n");
        out.append("end\n");
        assert(out@ =~= body + cmap_footer());
        assert(body =~= cmap_header() + cmap_blocks(e, 0));
        out
    }
}


/// The objects that embed one font: the Type0 font, its CIDFontType2
/// descendant, the font descriptor, the font file and the character map.
/// References between them are placeholders until the objects have ids.
pub struct FontObjects {
    pub type0_font: Dictionary,
    pub cid_font: Dictionary,
    pub font_descriptor: Dictionary,
    pub font_file_stream: Stream,
    pub tounicode_stream: Stream,
}

/// The reference that stands in where an object id is not known yet.
pub open spec fn placeholder() -> Value {
    Value::Reference((0u32, 0u16))
}

/// The dictionary of the font file stream for a payload of `len` bytes.
pub open spec fn font_file_entries(len: nat) -> Entries {
    seq![
        (nm("Type"), Value::Name(nm("FontDescriptor"))),
        (nm("Subtype"), Value::Name(nm("TrueType"))),
        (nm("Length1"), Value::Integer(length_value(len))),
        (nm("Length"), Value::Integer(length_value(len))),
    ]
}

/// The dictionary of the character map stream for a payload of `len` bytes.
pub open spec fn tounicode_entries(len: nat) -> Entries {
    seq![(nm("Type"), Value::Name(nm("CMap"))), (nm("Length"), Value::Integer(length_value(len)))]
}

/// The font descriptor.
pub open spec fn descriptor_entries(name: Seq<u8>, upm: u16, ascender: i16, descender: i16) -> Entries {
    seq![
        (nm("Type"), Value::Name(nm("FontDescriptor"))),
        (nm("FontName"), Value::Name(name)),
        (nm("Flags"), Value::Integer(4)),
        (
            nm("FontBBox"),
            Value::Array(
                seq![
                    Value::Integer(0),
                    Value::Integer(descender as i64),
                    Value::Integer(upm as i64),
                    Value::Integer(ascender as i64),
                ],
            ),
        ),
        (nm("ItalicAngle"), Value::Integer(0)),
        (nm("Ascent"), Value::Integer(ascender as i64)),
        (nm("Descent"), Value::Integer(descender as i64)),
        (nm("CapHeight"), Value::Integer(ascender as i64)),
        (nm("StemV"), Value::Integer(80)),
        (nm("FontFile2"), placeholder()),
    ]
}

/// The CIDFontType2 dictionary.
pub open spec fn cid_font_entries(name: Seq<u8>, widths: Value) -> Entries {
    seq![
        (nm("Type"), Value::Name(nm("Font"))),
        (nm("Subtype"), Value::Name(nm("CIDFontType2"))),
        (nm("BaseFont"), Value::Name(name)),
        (
            nm("CIDSystemInfo"),
            Value::Dictionary(
                seq![
                    (nm("Registry"), Value::String(nm("Adobe"), false)),
                    (nm("Ordering"), Value::String(nm("Identity"), false)),
                    (nm("Supplement"), Value::Integer(0)),
                ],
            ),
        ),
        (nm("FontDescriptor"), placeholder()),
        (nm("W"), widths),
        (nm("DW"), Value::Integer(1000)),
    ]
}

/// The Type0 font dictionary.
pub open spec fn type0_entries(name: Seq<u8>) -> Entries {
    seq![
        (nm("Type"), Value::Name(nm("Font"))),
        (nm("Subtype"), Value::Name(nm("Type0"))),
        (nm("BaseFont"), Value::Name(name)),
        (nm("Encoding"), Value::Name(nm("Identity-H"))),
        (nm("DescendantFonts"), Value::Array(seq![placeholder()])),
        (nm("ToUnicode"), placeholder()),
    ]
}

fn length_object(len: usize) -> (r: Object)
    ensures
        r@ == Value::Integer(length_value(len as nat)),
{
    let n: u64 = len as u64;
    if n <= 0x7fff_ffff_ffff_ffff {
        Object::Integer(n as i64)
    } else {
        Object::Integer(i64::MAX)
    }
}

impl FontData {
    /// The font file that is embedded: the subset where one was made, else
    /// the full file.
    pub open(crate) spec fn embedded_file(&self) -> Seq<u8> {
        match self.subset {
            Some(s) => s.data@,
            None => self.ttf_data@,
        }
    }

    fn tounicode_stream(&self) -> (r: Stream)
        ensures
            r.content@ == encode_utf8(cmap_text(self.cmap_entries())),
            r.dict@ == tounicode_entries(r.content@.len()),
    {
        let cmap = self.generate_tounicode_cmap();
        let cmap_bytes = copy_bytes(cmap.as_str().as_bytes());
        let mut e: Vec<(Vec<u8>, Object)> = Vec::new();
        e.push(entry("Type", Object::name("CMap")));
        e.push(entry("Length", length_object(cmap_bytes.len())));
        let dict = Dictionary::from_entries(e);
        assert(dict@ =~= tounicode_entries(cmap_bytes@.len()));
        Stream { dict, content: cmap_bytes }
    }

    fn font_file_stream(&self) -> (r: Stream)
        ensures
            r.content@ == self.embedded_file(),
            r.dict@ == font_file_entries(self.embedded_file().len()),
    {
        let file: Vec<u8> = match &self.subset {
            Some(s) => copy_bytes(s.data.as_slice()),
            None => copy_bytes(self.ttf_data.as_slice()),
        };
        let mut e: Vec<(Vec<u8>, Object)> = Vec::new();
        e.push(entry("Type", Object::name("FontDescriptor")));
        e.push(entry("Subtype", Object::name("TrueType")));
        e.push(entry("Length1", length_object(file.len())));
        e.push(entry("Length", length_object(file.len())));
        let dict = Dictionary::from_entries(e);
        assert(dict@ =~= font_file_entries(file@.len()));
        Stream { dict, content: file }
    }

    fn font_descriptor(&self) -> (r: Dictionary)
        ensures
            r@ == descriptor_entries(
                encode_utf8(self.spec_name()),
                self.spec_units_per_em(),
                self.spec_ascender(),
                self.spec_descender(),
            ),
    {
        let upm = self.units_per_em();
        let ascender = self.ascender();
        let descender = self.descender();
        let mut bbox: Vec<Object> = Vec::new();
        bbox.push(Object::Integer(0));
        bbox.push(Object::Integer(descender as i64));
        bbox.push(Object::Integer(upm as i64));
        bbox.push(Object::Integer(ascender as i64));
        let bbox = array_of(bbox);
        assert(bbox@->Array_0 =~= seq![
            Value::Integer(0),
            Value::Integer(descender as i64),
            Value::Integer(upm as i64),
            Value::Integer(ascender as i64),
        ]);
        let mut e: Vec<(Vec<u8>, Object)> = Vec::new();
        e.push(entry("Type", Object::name("FontDescriptor")));
        e.push(entry("FontName", Object::Name(name_bytes(self.name.as_str()))));
        e.push(entry("Flags", Object::Integer(4)));
        e.push(entry("FontBBox", bbox));
        e.push(entry("ItalicAngle", Object::Integer(0)));
        e.push(entry("Ascent", Object::Integer(ascender as i64)));
        e.push(entry("Descent", Object::Integer(descender as i64)));
        e.push(entry("CapHeight", Object::Integer(ascender as i64)));
        e.push(entry("StemV", Object::Integer(80)));
        e.push(entry("FontFile2", Object::Reference((0, 0))));
        let r = Dictionary::from_entries(e);
        assert(r@ =~= descriptor_entries(
            encode_utf8(self.spec_name()),
            upm,
            ascender,
            descender,
        ));
        r
    }

    fn cid_font(&self) -> (r: Dictionary)
        ensures
            r@ == cid_font_entries(
                encode_utf8(self.spec_name()),
                widths_value(self.spec_widths()),
            ),
    {
        let mut e: Vec<(Vec<u8>, Object)> = Vec::new();
        e.push(entry("Registry", Object::String(name_bytes("Adobe"), false)));
        e.push(entry("Ordering", Object::String(name_bytes("Identity"), false)));
        e.push(entry("Supplement", Object::Integer(0)));
        let info = Dictionary::from_entries(e);
        assert(info@ =~= seq![
            (nm("Registry"), Value::String(nm("Adobe"), false)),
            (nm("Ordering"), Value::String(nm("Identity"), false)),
            (nm("Supplement"), Value::Integer(0)),
        ]);
        let widths = self.generate_widths_array();
        let mut e: Vec<(Vec<u8>, Object)> = Vec::new();
        e.push(entry("Type", Object::name("Font")));
        e.push(entry("Subtype", Object::name("CIDFontType2")));
        e.push(entry("BaseFont", Object::Name(name_bytes(self.name.as_str()))));
        e.push(entry("CIDSystemInfo", Object::Dictionary(info)));
        e.push(entry("FontDescriptor", Object::Reference((0, 0))));
        e.push(entry("W", widths));
        e.push(entry("DW", Object::Integer(1000)));
        let r = Dictionary::from_entries(e);
        assert(r@ =~= cid_font_entries(
            encode_utf8(self.spec_name()),
            widths_value(self.spec_widths()),
        ));
        r
    }

    fn type0_font(&self) -> (r: Dictionary)
        ensures
            r@ == type0_entries(encode_utf8(self.spec_name())),
    {
        let mut descendants: Vec<Object> = Vec::new();
        descendants.push(Object::Reference((0, 0)));
        let descendants = array_of(descendants);
        assert(descendants@->Array_0 =~= seq![placeholder()]);
        let mut e: Vec<(Vec<u8>, Object)> = Vec::new();
        e.push(entry("Type", Object::name("Font")));
        e.push(entry("Subtype", Object::name("Type0")));
        e.push(entry("BaseFont", Object::Name(name_bytes(self.name.as_str()))));
        e.push(entry("Encoding", Object::name("Identity-H")));
        e.push(entry("DescendantFonts", descendants));
        e.push(entry("ToUnicode", Object::Reference((0, 0))));
        let r = Dictionary::from_entries(e);
        assert(r@ =~= type0_entries(encode_utf8(self.spec_name())));
        r
    }

    /// The five objects that embed this font.
    pub fn pdf_objects(&self) -> (o: FontObjects)
        ensures
            ({
                let name = encode_utf8(self.spec_name());
                &&& o.font_file_stream.content@ == self.embedded_file()
                &&& o.font_file_stream.dict@ == font_file_entries(self.embedded_file().len())
                &&& o.tounicode_stream.content@ == encode_utf8(cmap_text(self.cmap_entries()))
                &&& o.tounicode_stream.dict@ == tounicode_entries(
                    o.tounicode_stream.content@.len(),
                )
                &&& o.font_descriptor@ == descriptor_entries(
                    name,
                    self.spec_units_per_em(),
                    self.spec_ascender(),
                    self.spec_descender(),
                )
                &&& o.cid_font@ == cid_font_entries(name, widths_value(self.spec_widths()))
                &&& o.type0_font@ == type0_entries(name)
            }),
    {
        FontObjects {
            type0_font: self.type0_font(),
            cid_font: self.cid_font(),
            font_descriptor: self.font_descriptor(),
            font_file_stream: self.font_file_stream(),
            tounicode_stream: self.tounicode_stream(),
        }
    }

    /// The five objects that embed this font.
    pub fn to_pdf_objects(&self) -> (r: Result<FontObjects, PdfError>)
        ensures
            r matches Ok(o) && {
                let name = encode_utf8(self.spec_name());
                &&& o.font_file_stream.content@ == self.embedded_file()
                &&& o.font_file_stream.dict@ == font_file_entries(self.embedded_file().len())
                &&& o.tounicode_stream.content@ == encode_utf8(cmap_text(self.cmap_entries()))
                &&& o.tounicode_stream.dict@ == tounicode_entries(
                    o.tounicode_stream.content@.len(),
                )
                &&& o.font_descriptor@ == descriptor_entries(
                    name,
                    self.spec_units_per_em(),
                    self.spec_ascender(),
                    self.spec_descender(),
                )
                &&& o.cid_font@ == cid_font_entries(name, widths_value(self.spec_widths()))
                &&& o.type0_font@ == type0_entries(name)
            },
    {
        Ok(self.pdf_objects())
    }
}


/// A family of up to four variants of a font.
pub struct FontFamily {
    pub regular: Option<FontData>,
    pub bold: Option<FontData>,
    pub italic: Option<FontData>,
    pub bold_italic: Option<FontData>,
}

/// Which of the four places of a family a variant stands in.
#[derive(Debug, Clone, Copy, PartialEq, Eq, Structural)]
pub enum VariantSlot {
    Regular,
    Bold,
    Italic,
    BoldItalic,
}

/// The name of the variant of `family` for a weight and a style.
pub open spec fn variant_name(family: Seq<char>, weight: FontWeight, style: FontStyle) -> Seq<char> {
    match (weight, style) {
        (FontWeight::Bold, FontStyle::Italic) => family + "-bold-italic"@,
        (FontWeight::Bold, FontStyle::Normal) => family + "-bold"@,
        (FontWeight::Regular, FontStyle::Italic) => family + "-italic"@,
        (FontWeight::Regular, FontStyle::Normal) => family,
    }
}

impl FontFamily {
    /// The variant that stands in a place.
    pub open spec fn at(&self, slot: VariantSlot) -> Option<FontData> {
        match slot {
            VariantSlot::Regular => self.regular,
            VariantSlot::Bold => self.bold,
            VariantSlot::Italic => self.italic,
            VariantSlot::BoldItalic => self.bold_italic,
        }
    }

    /// The place whose variant serves a weight and a style: the first that
    /// is filled among bold-italic, bold, italic, regular for bold italic;
    /// bold, regular for bold; italic, regular for italic; regular else.
    pub open spec fn spec_slot(&self, weight: FontWeight, style: FontStyle) -> VariantSlot {
        match (weight, style) {
            (FontWeight::Bold, FontStyle::Italic) => if self.bold_italic is Some {
                VariantSlot::BoldItalic
            } else if self.bold is Some {
                VariantSlot::Bold
            } else if self.italic is Some {
                VariantSlot::Italic
            } else {
                VariantSlot::Regular
            },
            (FontWeight::Bold, FontStyle::Normal) => if self.bold is Some {
                VariantSlot::Bold
            } else {
                VariantSlot::Regular
            },
            (FontWeight::Regular, FontStyle::Italic) => if self.italic is Some {
                VariantSlot::Italic
            } else {
                VariantSlot::Regular
            },
            (FontWeight::Regular, FontStyle::Normal) => VariantSlot::Regular,
        }
    }

    /// The variant that serves a weight and a style.
    pub open spec fn spec_variant(&self, weight: FontWeight, style: FontStyle) -> Option<FontData> {
        self.at(self.spec_slot(weight, style))
    }

    /// The place whose variant serves a weight and a style.
    pub fn slot(&self, weight: FontWeight, style: FontStyle) -> (r: VariantSlot)
        ensures
            r == self.spec_slot(weight, style),
    {
        match (weight, style) {
            (FontWeight::Bold, FontStyle::Italic) => if self.bold_italic.is_some() {
                VariantSlot::BoldItalic
            } else if self.bold.is_some() {
                VariantSlot::Bold
            } else if self.italic.is_some() {
                VariantSlot::Italic
            } else {
                VariantSlot::Regular
            },
            (FontWeight::Bold, FontStyle::Normal) => if self.bold.is_some() {
                VariantSlot::Bold
            } else {
                VariantSlot::Regular
            },
            (FontWeight::Regular, FontStyle::Italic) => if self.italic.is_some() {
                VariantSlot::Italic
            } else {
                VariantSlot::Regular
            },
            (FontWeight::Regular, FontStyle::Normal) => VariantSlot::Regular,
        }
    }

    /// The variant in a place.
    pub fn variant_at(&self, slot: VariantSlot) -> (r: Option<&FontData>)
        ensures
            match r {
                Some(f) => self.at(slot) == Some(*f),
                None => self.at(slot) is None,
            },
    {
        match slot {
            VariantSlot::Regular => self.regular.as_ref(),
            VariantSlot::Bold => self.bold.as_ref(),
            VariantSlot::Italic => self.italic.as_ref(),
            VariantSlot::BoldItalic => self.bold_italic.as_ref(),
        }
    }

    /// The variant for a weight and a style, falling back as far as the
    /// regular variant.
    pub fn get_variant(&self, weight: FontWeight, style: FontStyle) -> (r: Option<&FontData>)
        ensures
            match r {
                Some(f) => self.spec_variant(weight, style) == Some(*f),
                None => self.spec_variant(weight, style) is None,
            },
    {
        self.variant_at(self.slot(weight, style))
    }

    /// The family with the variant `font` in a place.
    pub open spec fn with_variant(self, slot: VariantSlot, font: FontData) -> FontFamily {
        match slot {
            VariantSlot::Regular => FontFamily { regular: Some(font), ..self },
            VariantSlot::Bold => FontFamily { bold: Some(font), ..self },
            VariantSlot::Italic => FontFamily { italic: Some(font), ..self },
            VariantSlot::BoldItalic => FontFamily { bold_italic: Some(font), ..self },
        }
    }

    /// The variant for a weight and a style, falling back as far as the
    /// regular variant, to be changed in its place.
    pub fn get_variant_mut(&mut self, weight: FontWeight, style: FontStyle) -> (r: Option<&mut FontData>)
        ensures
            match r {
                Some(f) => old(self).spec_variant(weight, style) == Some(*f) && *final(self) == old(self).with_variant(old(self).spec_slot(weight, style), *final(f)),
                None => old(self).spec_variant(weight, style) is None && *final(self) == *old(self),
            },
    {
        match self.slot(weight, style) {
            VariantSlot::Regular => self.regular.as_mut(),
            VariantSlot::Bold => self.bold.as_mut(),
            VariantSlot::Italic => self.italic.as_mut(),
            VariantSlot::BoldItalic => self.bold_italic.as_mut(),
        }
    }

    /// The name of the variant of the family `family_name` for a weight and
    /// a style.
    pub fn get_variant_name(&self, family_name: &str, weight: FontWeight, style: FontStyle) -> (r:
        String)
        ensures
            r@ == variant_name(family_name@, weight, style),
    {
        let mut name = String::from_str(family_name);
        match (weight, style) {
            (FontWeight::Bold, FontStyle::Italic) => {
                name.append("-bold-italic");
            },
            (FontWeight::Bold, FontStyle::Normal) => {
                name.append("-bold");
            },
            (FontWeight::Regular, FontStyle::Italic) => {
                name.append("-italic");
            },
            (FontWeight::Regular, FontStyle::Normal) => {},
        }
        name
    }

    /// Whether some variant serves the weight and the style.
    pub fn has_variant(&self, weight: FontWeight, style: FontStyle) -> (r: bool)
        ensures
            r == self.spec_variant(weight, style).is_some(),
    {
        self.get_variant(weight, style).is_some()
    }
}

/// Collects the font files of a family before they are parsed.
pub struct FontFamilyBuilder {
    pub(crate) regular: Option<Vec<u8>>,
    pub(crate) bold: Option<Vec<u8>>,
    pub(crate) italic: Option<Vec<u8>>,
    pub(crate) bold_italic: Option<Vec<u8>>,
}

/// The bytes, if any, as a mathematical value.
pub open spec fn bytes_view(data: Option<Vec<u8>>) -> Option<Seq<u8>> {
    match data {
        Some(d) => Some(d@),
        None => None,
    }
}

impl FontFamilyBuilder {
    pub open(crate) spec fn spec_regular(&self) -> Option<Seq<u8>> {
        bytes_view(self.regular)
    }

    pub open(crate) spec fn spec_bold(&self) -> Option<Seq<u8>> {
        bytes_view(self.bold)
    }

    pub open(crate) spec fn spec_italic(&self) -> Option<Seq<u8>> {
        bytes_view(self.italic)
    }

    pub open(crate) spec fn spec_bold_italic(&self) -> Option<Seq<u8>> {
        bytes_view(self.bold_italic)
    }

    /// A builder without font files.
    pub fn new() -> (b: FontFamilyBuilder)
        ensures
            b.spec_regular() is None,
            b.spec_bold() is None,
            b.spec_italic() is None,
            b.spec_bold_italic() is None,
    {
        FontFamilyBuilder { regular: None, bold: None, italic: None, bold_italic: None }
    }

    /// Sets the font file of the regular variant.
    pub fn regular(self, ttf_data: Vec<u8>) -> (b: FontFamilyBuilder)
        ensures
            b.spec_regular() == Some(ttf_data@),
            b.spec_bold() == self.spec_bold(),
            b.spec_italic() == self.spec_italic(),
            b.spec_bold_italic() == self.spec_bold_italic(),
    {
        let mut b = self;
        b.regular = Some(ttf_data);
        b
    }

    /// Sets the font file of the bold variant.
    pub fn bold(self, ttf_data: Vec<u8>) -> (b: FontFamilyBuilder)
        ensures
            b.spec_regular() == self.spec_regular(),
            b.spec_bold() == Some(ttf_data@),
            b.spec_italic() == self.spec_italic(),
            b.spec_bold_italic() == self.spec_bold_italic(),
    {
        let mut b = self;
        b.bold = Some(ttf_data);
        b
    }

    /// Sets the font file of the italic variant.
    pub fn italic(self, ttf_data: Vec<u8>) -> (b: FontFamilyBuilder)
        ensures
            b.spec_regular() == self.spec_regular(),
            b.spec_bold() == self.spec_bold(),
            b.spec_italic() == Some(ttf_data@),
            b.spec_bold_italic() == self.spec_bold_italic(),
    {
        let mut b = self;
        b.italic = Some(ttf_data);
        b
    }

    /// Sets the font file of the bold italic variant.
    pub fn bold_italic(self, ttf_data: Vec<u8>) -> (b: FontFamilyBuilder)
        ensures
            b.spec_regular() == self.spec_regular(),
            b.spec_bold() == self.spec_bold(),
            b.spec_italic() == self.spec_italic(),
            b.spec_bold_italic() == Some(ttf_data@),
    {
        let mut b = self;
        b.bold_italic = Some(ttf_data);
        b
    }
}

impl Default for FontFamilyBuilder {
    fn default() -> (b: FontFamilyBuilder)
        ensures
            b.spec_regular() is None,
            b.spec_bold() is None,
            b.spec_italic() is None,
            b.spec_bold_italic() is None,
    {
        FontFamilyBuilder::new()
    }
}

/// Whether a font file, where one is given, parses.
pub open spec fn parses_if_given(data: Option<Seq<u8>>) -> bool {
    match data {
        Some(d) => ttf_parse_failure(d) is None,
        None => true,
    }
}

/// Whether `font` is the fresh font of the given name made from the file,
/// and there is none where no file is given.
pub open spec fn built_from(font: Option<FontData>, name: Seq<char>, data: Option<Seq<u8>>) -> bool {
    match data {
        Some(d) => font matches Some(f) && f.spec_name() == name && f.spec_data() == d
            && f.used().len() == 0 && f.has_face() && f.spec_subset() is None && f.wf(),
        None => font is None,
    }
}

/// Whether `family` is what the builder makes of the font files given
/// for a family of the name `name`.
pub open spec fn family_is_built(
    family: FontFamily,
    name: Seq<char>,
    regular: Option<Seq<u8>>,
    bold: Option<Seq<u8>>,
    italic: Option<Seq<u8>>,
    bold_italic: Option<Seq<u8>>,
) -> bool {
    &&& built_from(
        family.regular,
        variant_name(name, FontWeight::Regular, FontStyle::Normal),
        regular,
    )
    &&& built_from(family.bold, variant_name(name, FontWeight::Bold, FontStyle::Normal), bold)
    &&& built_from(
        family.italic,
        variant_name(name, FontWeight::Regular, FontStyle::Italic),
        italic,
    )
    &&& built_from(
        family.bold_italic,
        variant_name(name, FontWeight::Bold, FontStyle::Italic),
        bold_italic,
    )
}

/// The four variant names of a family differ from each other.
pub proof fn lemma_variant_names_differ(name: Seq<char>)
    ensures
        variant_name(name, FontWeight::Regular, FontStyle::Normal).len() == name.len(),
        variant_name(name, FontWeight::Bold, FontStyle::Normal).len() == name.len() + 5,
        variant_name(name, FontWeight::Regular, FontStyle::Italic).len() == name.len() + 7,
        variant_name(name, FontWeight::Bold, FontStyle::Italic).len() == name.len() + 12,
{
    reveal_strlit("-bold");
    reveal_strlit("-italic");
    reveal_strlit("-bold-italic");
}

/// Whether the builder's font files make a family: the regular file is
/// there and every file given parses.
pub open spec fn files_make_family(
    regular: Option<Seq<u8>>,
    bold: Option<Seq<u8>>,
    italic: Option<Seq<u8>>,
    bold_italic: Option<Seq<u8>>,
) -> bool {
    regular is Some && parses_if_given(regular) && parses_if_given(bold) && parses_if_given(
        italic,
    ) && parses_if_given(bold_italic)
}

fn build_variant(name: String, data: &Option<Vec<u8>>) -> (r: Result<Option<FontData>, PdfError>)
    ensures
        match r {
            Ok(f) => parses_if_given(bytes_view(*data)) && built_from(f, name@, bytes_view(*data)),
            Err(e) => !parses_if_given(bytes_view(*data)) && e is FontParseError,
        },
{
    match data {
        Some(d) => match FontData::from_ttf(name.as_str(), d.as_slice()) {
            Ok(f) => Ok(Some(f)),
            Err(e) => Err(e),
        },
        None => Ok(None),
    }
}

impl FontFamilyBuilder {
    /// Parses the font files into a family. A family needs its regular
    /// variant, and every file given has to parse.
    pub fn build(self, family_name: &str) -> (r: Result<FontFamily, PdfError>)
        ensures
            r is Ok <==> files_make_family(
                self.spec_regular(),
                self.spec_bold(),
                self.spec_italic(),
                self.spec_bold_italic(),
            ),
            r matches Ok(family) ==> family_is_built(
                family,
                family_name@,
                self.spec_regular(),
                self.spec_bold(),
                self.spec_italic(),
                self.spec_bold_italic(),
            ),
            r matches Err(e) ==> e is FontParseError,
    {
        if self.regular.is_none() {
            return Err(
                PdfError::FontParseError(
                    "FontFamily must have at least a regular variant".to_owned(),
                ),
            );
        }
        let regular = build_variant(String::from_str(family_name), &self.regular)?;
        let mut name = String::from_str(family_name);
        name.append("-bold");
        let bold = build_variant(name, &self.bold)?;
        let mut name = String::from_str(family_name);
        name.append("-italic");
        let italic = build_variant(name, &self.italic)?;
        let mut name = String::from_str(family_name);
        name.append("-bold-italic");
        let bold_italic = build_variant(name, &self.bold_italic)?;
        Ok(FontFamily { regular, bold, italic, bold_italic })
    }
}

} // verus!
