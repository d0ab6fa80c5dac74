//! The `name` table of a font file, as far as its numbers go: a scan
//! that tells whether the offsets and lengths of its records stay within
//! sixteen bits.
//!
//! A font file starts with a table directory: twelve bytes, then one
//! record of sixteen bytes for each table, with the tag of the table, a
//! checksum, and the offset and the length of the table in the file. The
//! number of records stands at byte 4. The file of a font collection
//! holds at byte 12 the offset of the directory of its first font.

use vstd::prelude::*;
use vstd::slice::slice_subrange;

verus! {

/// The number that two bytes write, the high byte first.
pub open spec fn be16(data: Seq<u8>, at: int) -> int {
    data[at] as int * 256 + data[at + 1] as int
}

/// The number that four bytes write, the high byte first.
pub open spec fn be32(data: Seq<u8>, at: int) -> int {
    be16(data, at) * 65536 + be16(data, at + 2)
}

/// The length that record `i` of a `name` table states.
pub open spec fn name_length(t: Seq<u8>, i: int) -> int {
    be16(t, 6 + 12 * i + 8)
}

/// The offset that record `i` of a `name` table states.
pub open spec fn name_offset(t: Seq<u8>, i: int) -> int {
    be16(t, 6 + 12 * i + 10)
}

/// Whether offset and length of record `i` together stay within sixteen bits.
pub open spec fn name_record_fits(t: Seq<u8>, i: int) -> bool {
    name_offset(t, i) + name_length(t, i) <= 0xFFFF
}

/// The lengths that the first `n` records state, added up.
pub open spec fn name_lengths(t: Seq<u8>, n: int) -> int
    decreases n,
{
    if n <= 0 {
        0
    } else {
        name_lengths(t, n - 1) + name_length(t, n - 1)
    }
}

/// Whether the numbers of a `name` table stay within sixteen bits. A
/// table that is too short for its header or its records, or is not of
/// version 0, does; one of version 0 with all its records does where it
/// has at most 5460 records (6 + 12 · 5460 is below 65536), each record's
/// offset and length together stay within sixteen bits, and so do all
/// lengths together.
pub open spec fn name_fits(t: Seq<u8>) -> bool {
    t.len() < 6 || be16(t, 0) != 0 || 6 + 12 * be16(t, 2) > t.len() || ({
        let count = be16(t, 2);
        &&& count <= 5460
        &&& forall|i: int| 0 <= i < count ==> #[trigger] name_record_fits(t, i)
        &&& name_lengths(t, count) <= 0xFFFF
    })
}

/// Whether the four bytes at `at` are the tag `name`.
pub open spec fn name_tag_at(data: Seq<u8>, at: int) -> bool {
    data[at] == 0x6E && data[at + 1] == 0x61 && data[at + 2] == 0x6D && data[at + 3] == 0x65
}

/// Whether record `i` of the directory at `base` is fine: it is not a
/// whole record of the file, or is not for a table `name`, or that table
/// does not lie within the file, or its numbers stay within sixteen bits.
pub open spec fn directory_record_fits(data: Seq<u8>, base: int, i: int) -> bool {
    let at = base + 12 + 16 * i;
    at + 16 > data.len() || !name_tag_at(data, at) || ({
        let start = be32(data, at + 8);
        let length = be32(data, at + 12);
        start + length > data.len() || name_fits(data.subrange(start, start + length))
    })
}

/// Whether every record of the directory at `base` is fine. A directory
/// whose first twelve bytes are not all in the file has no records.
pub open spec fn directory_fits(data: Seq<u8>, base: int) -> bool {
    base + 12 > data.len() || forall|i: int|
        0 <= i < be16(data, base + 4) ==> #[trigger] directory_record_fits(data, base, i)
}

/// Whether the numbers of every `name` table that the file's directory
/// names stay within sixteen bits: the directory at the start of the
/// file, and the one at the offset that stands at byte 12, where a font
/// collection has the directory of its first font.
pub open spec fn name_tables_fit(data: Seq<u8>) -> bool {
    directory_fits(data, 0) && (data.len() >= 16 ==> directory_fits(data, be32(data, 12)))
}

/// The number that two bytes write.
fn read16(data: &[u8], at: usize) -> (r: u16)
    requires
        at + 2 <= data@.len(),
        at + 2 <= usize::MAX,
    ensures
        r == be16(data@, at as int),
{
    let hi: u16 = data[at] as u16;
    let lo: u16 = data[at + 1] as u16;
    hi * 256 + lo
}

/// The number that four bytes write.
fn read32(data: &[u8], at: usize) -> (r: u32)
    requires
        at + 4 <= data@.len(),
        at + 4 <= usize::MAX,
    ensures
        r == be32(data@, at as int),
{
    let hi: u32 = read16(data, at) as u32;
    let lo: u32 = read16(data, at + 2) as u32;
    hi * 65536 + lo
}

/// Whether the numbers of a `name` table stay within sixteen bits.
pub fn name_table_fits(t: &[u8]) -> (r: bool)
    ensures
        r == name_fits(t@),
{
    if t.len() < 6 {
        return true;
    }
    if read16(t, 0) != 0 {
        return true;
    }
    let count: usize = read16(t, 2) as usize;
    if 12 * count > t.len() - 6 {
        return true;
    }
    if count > 5460 {
        return false;
    }
    let mut sum: u32 = 0;
    let mut i: usize = 0;
    while i < count
        invariant
            i <= count,
            count == be16(t@, 2),
            count <= 5460,
            t@.len() >= 6,
            be16(t@, 0) == 0,
            6 + 12 * count <= t@.len(),
            forall|j: int| 0 <= j < i ==> #[trigger] name_record_fits(t@, j),
            sum == name_lengths(t@, i as int),
            sum <= 0xFFFF,
        decreases count - i,
    {
        let length: u32 = read16(t, 6 + 12 * i + 8) as u32;
        let offset: u32 = read16(t, 6 + 12 * i + 10) as u32;
        if offset + length > 0xFFFF {
            assert(!name_record_fits(t@, i as int));
            return false;
        }
        if sum + length > 0xFFFF {
            proof {
                lemma_lengths_grow(t@, i + 1, count as int);
            }
            return false;
        }
        sum = sum + length;
        i += 1;
    }
    true
}

/// The sum of the lengths does not shrink with more records.
pub proof fn lemma_lengths_grow(t: Seq<u8>, n: int, m: int)
    requires
        0 <= n <= m,
    ensures
        name_lengths(t, n) <= name_lengths(t, m),
    decreases m - n,
{
    if n < m {
        lemma_lengths_grow(t, n, m - 1);
    }
}

/// Whether every record of the directory at `base` is fine.
pub fn directory_is_fine(data: &[u8], base: usize) -> (r: bool)
    requires
        base <= u32::MAX,
    ensures
        r == directory_fits(data@, base as int),
{
    if data.len() < 12 || base > data.len() - 12 {
        return true;
    }
    let count: usize = read16(data, base + 4) as usize;
    let mut i: usize = 0;
    while i < count
        invariant
            i <= count,
            count == be16(data@, base + 4),
            base + 12 <= data@.len(),
            base <= u32::MAX,
            forall|j: int| 0 <= j < i ==> #[trigger] directory_record_fits(data@, base as int, j),
        decreases count - i,
    {
        if data.len() - base - 12 < 16 * i + 16 {
            proof {
                assert forall|j: int| i <= j < count implies #[trigger] directory_record_fits(
                    data@,
                    base as int,
                    j,
                ) by {}
            }
            return true;
        }
        let at: usize = base + 12 + 16 * i;
        if data[at] == 0x6E && data[at + 1] == 0x61 && data[at + 2] == 0x6D && data[at + 3] == 0x65 {
            let start: usize = read32(data, at + 8) as usize;
            let length: usize = read32(data, at + 12) as usize;
            if start <= data.len() && length <= data.len() - start {
                if !name_table_fits(slice_subrange(data, start, start + length)) {
                    assert(!directory_record_fits(data@, base as int, i as int));
                    return false;
                }
            }
        }
        assert(directory_record_fits(data@, base as int, i as int));
        i += 1;
    }
    true
}

/// Whether the numbers of every `name` table that the file's directory
/// names stay within sixteen bits.
pub fn name_tables_are_fine(data: &[u8]) -> (r: bool)
    ensures
        r == name_tables_fit(data@),
{
    if !directory_is_fine(data, 0) {
        return false;
    }
    if data.len() >= 16 {
        let base: usize = read32(data, 12) as usize;
        directory_is_fine(data, base)
    } else {
        true
    }
}

} // verus!
