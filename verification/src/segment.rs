//! Splitting text into runs of characters that are set in the same font.

use vstd::prelude::*;

verus! {

/// A run of text with the number of the font that sets it.
pub struct Segment {
    pub text: Vec<char>,
    pub font: usize,
}

/// The runs closed so far, the run being read and its font, after the
/// characters of `chars`: a character whose font differs from that of the
/// run closes the run and starts the next.
pub open spec fn scan_segments(chars: Seq<char>, font_of: spec_fn(char) -> int) -> (
    Seq<(Seq<char>, int)>,
    Seq<char>,
    int,
)
    decreases chars.len(),
{
    if chars.len() == 0 {
        (Seq::empty(), Seq::empty(), 0)
    } else {
        let (done, cur, font) = scan_segments(chars.drop_last(), font_of);
        let c = chars.last();
        let f = font_of(c);
        if cur.len() == 0 {
            (done, seq![c], f)
        } else if f == font {
            (done, cur.push(c), font)
        } else {
            (done.push((cur, font)), seq![c], f)
        }
    }
}

/// The runs that `chars` falls into: maximal runs of characters with the
/// same font, in reading order.
pub open spec fn segments_of(chars: Seq<char>, font_of: spec_fn(char) -> int) -> Seq<
    (Seq<char>, int),
> {
    let (done, cur, font) = scan_segments(chars, font_of);
    if cur.len() > 0 {
        done.push((cur, font))
    } else {
        done
    }
}

/// The texts of the runs, one after the other.
pub open spec fn joined(segments: Seq<(Seq<char>, int)>) -> Seq<char>
    decreases segments.len(),
{
    if segments.len() == 0 {
        Seq::empty()
    } else {
        joined(segments.drop_last()) + segments.last().0
    }
}

/// Whether the runs are well formed for `font_of`: none is empty, each
/// holds characters of its font only, and neighbours differ in their font.
pub open spec fn well_segmented(segments: Seq<(Seq<char>, int)>, font_of: spec_fn(char) -> int) -> bool {
    &&& forall|i: int| 0 <= i < segments.len() ==> (#[trigger] segments[i]).0.len() > 0
    &&& forall|i: int, k: int|
        0 <= i < segments.len() && 0 <= k < segments[i].0.len() ==> font_of(
            #[trigger] segments[i].0[k],
        ) == segments[i].1
    &&& forall|i: int|
        0 <= i < segments.len() - 1 ==> (#[trigger] segments[i]).1 != segments[i + 1].1
}

proof fn lemma_scan_segments(chars: Seq<char>, font_of: spec_fn(char) -> int)
    ensures
        ({
            let (done, cur, font) = scan_segments(chars, font_of);
            &&& joined(done) + cur == chars
            &&& well_segmented(done, font_of)
            &&& forall|k: int| 0 <= k < cur.len() ==> font_of(#[trigger] cur[k]) == font
            &&& (done.len() > 0 ==> cur.len() > 0 && done.last().1 != font)
            &&& (chars.len() > 0 ==> cur.len() > 0)
        }),
    decreases chars.len(),
{
    if chars.len() > 0 {
        let before = chars.drop_last();
        lemma_scan_segments(before, font_of);
        let (done, cur, font) = scan_segments(before, font_of);
        let (done2, cur2, font2) = scan_segments(chars, font_of);
        let c = chars.last();
        assert(chars =~= before.push(c));
        if cur.len() == 0 {
            assert(joined(done2) + cur2 =~= chars);
        } else if font_of(c) == font {
            assert(joined(done2) + cur2 =~= chars);
        } else {
            assert(done2.drop_last() =~= done);
            assert(joined(done2) + cur2 =~= chars);
            assert forall|i: int| 0 <= i < done2.len() - 1 implies (#[trigger] done2[i]).1
                != done2[i + 1].1 by {
                if i < done.len() - 1 {
                    assert(done[i].1 != done[i + 1].1);
                }
            }
        }
    }
}

/// The runs of a text, joined, are the text; no run is empty; every
/// character of a run has the run's font; and two runs that meet differ in
/// their font.
pub proof fn law_segmentation(chars: Seq<char>, font_of: spec_fn(char) -> int)
    ensures
        joined(segments_of(chars, font_of)) == chars,
        well_segmented(segments_of(chars, font_of), font_of),
{
    lemma_scan_segments(chars, font_of);
    let (done, cur, font) = scan_segments(chars, font_of);
    let all = segments_of(chars, font_of);
    if cur.len() > 0 {
        assert(all.drop_last() =~= done);
        assert forall|i: int| 0 <= i < all.len() - 1 implies (#[trigger] all[i]).1 != all[i
            + 1].1 by {
            if i < done.len() - 1 {
                assert(done[i].1 != done[i + 1].1);
            }
        }
    } else {
        assert(joined(done) + cur =~= joined(done));
    }
}

/// The runs as mathematical values.
pub open spec fn segments_view(segments: Seq<Segment>) -> Seq<(Seq<char>, int)> {
    Seq::new(segments.len(), |i: int| (segments[i].text@, segments[i].font as int))
}

} // verus!
