//! What a TrueType file says about its glyphs, read through `ttf-parser`,
//! and the subsetting of a font file through `subsetter`.
//!
//! A font file is kept as bytes and parsed again for each question, so no
//! parsed face has to be stored next to the bytes it borrows from.

use vstd::prelude::*;
use crate::names::name_tables_fit;

verus! {

/// `ttf_parser::Face::parse(data, 0)`: the debug text of the error, or `None`
/// where the bytes parse as a font face.
pub uninterp spec fn ttf_parse_failure(data: Seq<u8>) -> Option<Seq<char>>;

/// `ttf_parser::Face::glyph_index` on the face parsed from `data`.
pub uninterp spec fn ttf_glyph_index(data: Seq<u8>, c: char) -> Option<u16>;

/// `ttf_parser::Face::glyph_hor_advance` on the face parsed from `data`.
pub uninterp spec fn ttf_glyph_advance(data: Seq<u8>, glyph: u16) -> Option<u16>;

/// `ttf_parser::Face::units_per_em` on the face parsed from `data`.
pub uninterp spec fn ttf_units_per_em(data: Seq<u8>) -> Option<u16>;

/// `ttf_parser::Face::ascender` on the face parsed from `data`.
pub uninterp spec fn ttf_ascender(data: Seq<u8>) -> Option<i16>;

/// `ttf_parser::Face::descender` on the face parsed from `data`.
pub uninterp spec fn ttf_descender(data: Seq<u8>) -> Option<i16>;

/// `subsetter::subset` of the first face in `data`, keeping the glyphs
/// `keep` in that order: the new font file, or the text of the error.
pub uninterp spec fn subset_result(data: Seq<u8>, keep: Seq<u16>) -> Result<Seq<u8>, Seq<char>>;

/// Calls `ttf_parser::Face::parse` on face 0 of `data`. Returns the error's
/// debug text where parsing fails and `None` where it succeeds; nothing more
/// is claimed than that equal bytes give equal answers.
#[verifier::external_body]
pub(crate) fn face_parse_failure(data: &[u8]) -> (r: Option<String>)
    ensures
        match r {
            Some(msg) => ttf_parse_failure(data@) == Some(msg@),
            None => ttf_parse_failure(data@) is None,
        },
{
    ttf_parser::Face::parse(data, 0).err().map(|e| format!("{e:?}"))
}

/// Calls `ttf_parser::Face::glyph_index` for `c` on face 0 of `data`; `None`
/// where the bytes do not parse or the face maps no glyph to `c`. The result
/// is named, not described.
#[verifier::external_body]
pub(crate) fn face_glyph_index(data: &[u8], c: char) -> (r: Option<u16>)
    ensures
        r == ttf_glyph_index(data@, c),
{
    ttf_parser::Face::parse(data, 0).ok()?.glyph_index(c).map(|g| g.0)
}

/// Calls `ttf_parser::Face::glyph_hor_advance` for glyph `glyph` on face 0 of
/// `data`; `None` where the bytes do not parse or the face has no advance
/// for the glyph. The result is named, not described.
#[verifier::external_body]
pub(crate) fn face_glyph_advance(data: &[u8], glyph: u16) -> (r: Option<u16>)
    ensures
        r == ttf_glyph_advance(data@, glyph),
{
    ttf_parser::Face::parse(data, 0).ok()?.glyph_hor_advance(ttf_parser::GlyphId(glyph))
}

/// Calls `ttf_parser::Face::units_per_em` on face 0 of `data`; `None` where
/// the bytes do not parse. The result is named, not described.
#[verifier::external_body]
pub(crate) fn face_units_per_em(data: &[u8]) -> (r: Option<u16>)
    ensures
        r == ttf_units_per_em(data@),
{
    ttf_parser::Face::parse(data, 0).ok().map(|f| f.units_per_em())
}

/// Calls `ttf_parser::Face::ascender` on face 0 of `data`; `None` where the
/// bytes do not parse. The result is named, not described.
#[verifier::external_body]
pub(crate) fn face_ascender(data: &[u8]) -> (r: Option<i16>)
    ensures
        r == ttf_ascender(data@),
{
    ttf_parser::Face::parse(data, 0).ok().map(|f| f.ascender())
}

/// Calls `ttf_parser::Face::descender` on face 0 of `data`; `None` where the
/// bytes do not parse. The result is named, not described.
#[verifier::external_body]
pub(crate) fn face_descender(data: &[u8]) -> (r: Option<i16>)
    ensures
        r == ttf_descender(data@),
{
    ttf_parser::Face::parse(data, 0).ok().map(|f| f.descender())
}

/// The glyph id that two bytes write, the high byte first.
pub open spec fn id_of(hi: u8, lo: u8) -> int {
    hi as int * 256 + lo as int
}

/// Whether the two bytes that write `id` stand next to each other among
/// the first `n` pairs of bytes of `data`.
pub open spec fn names_id_within(data: Seq<u8>, id: int, n: int) -> bool {
    exists|i: int| 0 <= i < n && i + 1 < data.len() && #[trigger] id_of(data[i], data[i + 1]) == id
}

/// Whether the two bytes that write `id` stand next to each other
/// somewhere in `data`.
pub open spec fn names_id(data: Seq<u8>, id: int) -> bool {
    names_id_within(data, id, data.len() as int)
}

/// Whether the four bytes of the table tag `CFF ` stand at `i` in `data`.
pub open spec fn cff_tag_at(data: Seq<u8>, i: int) -> bool {
    &&& 0 <= i
    &&& i + 3 < data.len()
    &&& data[i] == 0x43
    &&& data[i + 1] == 0x46
    &&& data[i + 2] == 0x46
    &&& data[i + 3] == 0x20
}

/// Whether the table tag `CFF ` stands somewhere in `data`.
pub open spec fn names_cff(data: Seq<u8>) -> bool {
    exists|i: int| #[trigger] cff_tag_at(data, i)
}

/// Whether `data` can be handed to the subsetter with the glyphs `keep`:
/// `keep` starts with glyph 0, there is a glyph id that neither is in
/// `keep` nor is written anywhere in `data`, `data` names no table of
/// CFF outlines, and the numbers of its `name` tables stay within
/// sixteen bits.
pub open spec fn can_subset(data: Seq<u8>, keep: Seq<u16>) -> bool {
    &&& keep.len() > 0 && keep[0] == 0
    &&& exists|id: u16| !keep.contains(id) && !#[trigger] names_id(data, id as int)
    &&& !names_cff(data)
    &&& name_tables_fit(data)
}

/// Calls `subsetter::GlyphRemapper::new_from_glyphs(keep)` and then
/// `subsetter::subset(data, 0, ..)`. The remapper numbers glyph 0 as 0 and
/// every further glyph id in the order in which it first occurs, so with
/// `keep` free of repetitions and starting with 0, glyph `keep[i]` of the old
/// font is glyph `i` of the new one. The bytes that come back are named, not
/// described.
///
/// The remapper counts in 16 bits and panics when it is to number the
/// 65536th glyph id. What it numbers are glyph 0, the ids of `keep` and
/// the ids that composite glyphs give for their components, which the
/// subsetter reads from the file as two bytes, the high byte first. The
/// call is therefore made only where `keep` starts with glyph 0 and some
/// id is neither in `keep` nor written anywhere in the file. For fonts
/// with CFF outlines the subsetter numbers font dictionaries in the same
/// way with a counter of 8 bits; it comes to that only where it finds a
/// table with the tag `CFF `, so the call is made only where these four
/// bytes are nowhere in the file.
///
/// The subsetter rewrites a `name` table of version 0 and there adds a
/// record's offset and length, adds up the lengths, and multiplies the
/// number of records by twelve and adds six, all in 16 bits without a
/// test. It finds the table through a record of the table directory,
/// which it reads at the start of the file or, for a font collection, at
/// the offset that stands at byte 12. The call is therefore made only
/// where, for every record of either directory with the tag `name`, the
/// table has at most 5460 records and these sums stay within 16 bits.
#[verifier::external_body]
pub(crate) fn subset_font(data: &[u8], keep: &[u16]) -> (r: Result<Vec<u8>, String>)
    requires
        can_subset(data@, keep@),
    ensures
        match r {
            Ok(bytes) => subset_result(data@, keep@) == Ok::<Seq<u8>, Seq<char>>(bytes@),
            Err(msg) => subset_result(data@, keep@) == Err::<Seq<u8>, Seq<char>>(msg@),
        },
{
    let remapper = subsetter::GlyphRemapper::new_from_glyphs(keep);
    subsetter::subset(data, 0, &remapper).map_err(|e| e.to_string())
}

/// A glyph id that neither is in `keep` nor is written anywhere in
/// `data`: the smallest, if there is one.
pub fn find_spare_id(data: &[u8], keep: &[u16]) -> (r: Option<u16>)
    ensures
        match r {
            Some(id) => !keep@.contains(id) && !names_id(data@, id as int),
            None => forall|id: u16| keep@.contains(id) || #[trigger] names_id(data@, id as int),
        },
{
    let mut seen: Vec<bool> = Vec::new();
    while seen.len() < 0x1_0000
        invariant
            seen@.len() <= 0x1_0000,
            forall|x: int| 0 <= x < seen@.len() ==> !(#[trigger] seen@[x]),
        decreases 0x1_0000 - seen.len(),
    {
        seen.push(false);
    }
    let mut k: usize = 0;
    while k < keep.len()
        invariant
            k <= keep.len(),
            seen@.len() == 0x1_0000,
            forall|x: int|
                0 <= x < 0x1_0000 ==> (#[trigger] seen@[x] <==> keep@.take(k as int).contains(x as u16)),
        decreases keep.len() - k,
    {
        let id: u16 = keep[k];
        let ghost before = keep@.take(k as int);
        let ghost after = keep@.take(k + 1);
        seen.set(id as usize, true);
        proof {
            assert(after =~= before.push(id));
            assert forall|x: int| 0 <= x < 0x1_0000 implies (#[trigger] seen@[x] <==> after.contains(
                x as u16,
            )) by {
                if x == id {
                    assert(after[k as int] == id);
                } else if before.contains(x as u16) {
                    let j = choose|j: int| 0 <= j < before.len() && before[j] == x as u16;
                    assert(after[j] == x as u16);
                } else if after.contains(x as u16) {
                    let j = choose|j: int| 0 <= j < after.len() && after[j] == x as u16;
                    assert(before[j] == x as u16);
                }
            }
        }
        k += 1;
    }
    assert(keep@.take(keep@.len() as int) =~= keep@);
    let mut i: usize = 0;
    while data.len() - i > 1
        invariant
            i <= data.len(),
            seen@.len() == 0x1_0000,
            forall|x: int|
                0 <= x < 0x1_0000 ==> (#[trigger] seen@[x] <==> keep@.contains(x as u16)
                    || names_id_within(data@, x, i as int)),
        decreases data.len() - i,
    {
        let id: usize = data[i] as usize * 256 + data[i + 1] as usize;
        seen.set(id, true);
        proof {
            assert(id_of(data@[i as int], data@[i + 1]) == id);
            assert forall|x: int| 0 <= x < 0x1_0000 implies (#[trigger] seen@[x] <==> keep@.contains(
                x as u16,
            ) || names_id_within(data@, x, i + 1)) by {
                if names_id_within(data@, x, i as int) {
                    let j = choose|j: int|
                        0 <= j < i && j + 1 < data@.len() && #[trigger] id_of(data@[j], data@[j + 1]) == x;
                    assert(id_of(data@[j], data@[j + 1]) == x);
                }
                if names_id_within(data@, x, i + 1) && x != id {
                    let j = choose|j: int|
                        0 <= j < i + 1 && j + 1 < data@.len() && #[trigger] id_of(data@[j], data@[j + 1])
                            == x;
                    assert(j < i);
                    assert(id_of(data@[j], data@[j + 1]) == x);
                }
            }
        }
        i += 1;
    }
    proof {
        assert forall|x: int| 0 <= x < 0x1_0000 implies (names_id_within(data@, x, i as int)
            <==> names_id(data@, x)) by {
            if names_id(data@, x) {
                let j = choose|j: int|
                    0 <= j < data@.len() && j + 1 < data@.len() && #[trigger] id_of(data@[j], data@[j + 1])
                        == x;
                assert(j < i);
                assert(id_of(data@[j], data@[j + 1]) == x);
            }
            if names_id_within(data@, x, i as int) {
                let j = choose|j: int|
                    0 <= j < i && j + 1 < data@.len() && #[trigger] id_of(data@[j], data@[j + 1]) == x;
                assert(id_of(data@[j], data@[j + 1]) == x);
            }
        }
    }
    let mut x: usize = 0;
    while x < 0x1_0000
        invariant
            x <= 0x1_0000,
            seen@.len() == 0x1_0000,
            forall|y: int| 0 <= y < x ==> #[trigger] seen@[y],
            forall|y: int|
                0 <= y < 0x1_0000 ==> (#[trigger] seen@[y] <==> keep@.contains(y as u16) || names_id(
                    data@,
                    y,
                )),
        decreases 0x1_0000 - x,
    {
        if !seen[x] {
            return Some(x as u16);
        }
        x += 1;
    }
    proof {
        assert forall|id: u16| keep@.contains(id) || #[trigger] names_id(data@, id as int) by {
            assert(seen@[id as int]);
        }
    }
    None
}

/// Whether the table tag `CFF ` stands somewhere in `data`.
pub fn has_cff_tag(data: &[u8]) -> (r: bool)
    ensures
        r == names_cff(data@),
{
    let mut i: usize = 0;
    while data.len() - i > 3
        invariant
            i <= data.len(),
            forall|j: int| 0 <= j < i ==> !#[trigger] cff_tag_at(data@, j),
        decreases data.len() - i,
    {
        if data[i] == 0x43 && data[i + 1] == 0x46 && data[i + 2] == 0x46 && data[i + 3] == 0x20 {
            assert(cff_tag_at(data@, i as int));
            return true;
        }
        i += 1;
    }
    false
}

} // verus!
