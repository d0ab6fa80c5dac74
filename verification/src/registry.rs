//! The fonts of a document: every variant under its own name, the families
//! that group them, and the fallback chains between families.

use vstd::prelude::*;
use vstd::string::StringExecFns;
use crate::assoc::{assign, find, lemma_find_unique, lookup};
use crate::font::{
    first_index, lemma_first_index, lemma_first_index_bounds, variant_name, FontData, FontFamily,
    FontStyle, FontWeight, VariantSlot,
};
use crate::glyphs::ttf_parse_failure;
use crate::segment::{scan_segments, segments_of, segments_view, Segment};
use crate::strings::chars_of;
use crate::PdfError;

verus! {

/// A family as the registry keeps it: its name and the places of its
/// variants in the list of variants.
pub struct FamilySlots {
    pub name: String,
    pub regular: usize,
    pub bold: Option<usize>,
    pub italic: Option<usize>,
    pub bold_italic: Option<usize>,
    /// Whether the family was added as a single font.
    pub single: bool,
}

/// The fonts of a document.
pub struct FontRegistry {
    pub(crate) variants: Vec<FontData>,
    pub(crate) families: Vec<FamilySlots>,
    pub(crate) fallbacks: Vec<(String, Vec<String>)>,
}

/// Whether two texts are the same.
pub fn same_text(a: &str, b: &str) -> (r: bool)
    ensures
        r == (a@ == b@),
{
    String::from_str(a) == String::from_str(b)
}

/// The place among `names` of the first that equals `name`; their number
/// where none does.
pub open spec fn name_index(names: Seq<Seq<char>>, name: Seq<char>) -> int {
    first_index(names, name, 0)
}

impl FamilySlots {
    /// The place of the variant that serves a weight and a style: the
    /// first that is there among bold italic, bold, italic, regular for
    /// bold italic; bold, regular for bold; italic, regular for italic;
    /// regular else.
    pub open spec fn spec_variant(&self, weight: FontWeight, style: FontStyle) -> usize {
        match (weight, style) {
            (FontWeight::Bold, FontStyle::Italic) => match (self.bold_italic, self.bold, self.italic) {
                (Some(i), _, _) => i,
                (None, Some(i), _) => i,
                (None, None, Some(i)) => i,
                (None, None, None) => self.regular,
            },
            (FontWeight::Bold, FontStyle::Normal) => match self.bold {
                Some(i) => i,
                None => self.regular,
            },
            (FontWeight::Regular, FontStyle::Italic) => match self.italic {
                Some(i) => i,
                None => self.regular,
            },
            (FontWeight::Regular, FontStyle::Normal) => self.regular,
        }
    }

    /// The place of the variant that serves a weight and a style.
    pub fn variant(&self, weight: FontWeight, style: FontStyle) -> (r: usize)
        ensures
            r == self.spec_variant(weight, style),
    {
        match (weight, style) {
            (FontWeight::Bold, FontStyle::Italic) => match (self.bold_italic, self.bold, self.italic) {
                (Some(i), _, _) => i,
                (None, Some(i), _) => i,
                (None, None, Some(i)) => i,
                (None, None, None) => self.regular,
            },
            (FontWeight::Bold, FontStyle::Normal) => match self.bold {
                Some(i) => i,
                None => self.regular,
            },
            (FontWeight::Regular, FontStyle::Italic) => match self.italic {
                Some(i) => i,
                None => self.regular,
            },
            (FontWeight::Regular, FontStyle::Normal) => self.regular,
        }
    }

    /// Whether every place that the family names lies below `count`.
    pub open spec fn within(&self, count: int) -> bool {
        &&& self.regular < count
        &&& self.bold matches Some(i) ==> i < count
        &&& self.italic matches Some(i) ==> i < count
        &&& self.bold_italic matches Some(i) ==> i < count
    }
}

impl FontRegistry {
    /// The variants, in the order in which they were registered.
    pub open(crate) spec fn spec_variants(&self) -> Seq<FontData> {
        self.variants@
    }

    /// The families, in the order in which they were registered.
    pub open(crate) spec fn spec_families(&self) -> Seq<FamilySlots> {
        self.families@
    }

    /// The names of the variants, in their order.
    pub open(crate) spec fn variant_names(&self) -> Seq<Seq<char>> {
        Seq::new(self.variants@.len(), |i: int| self.variants@[i].spec_name())
    }

    /// The names of the families, in their order.
    pub open(crate) spec fn family_names(&self) -> Seq<Seq<char>> {
        Seq::new(self.families@.len(), |i: int| self.families@[i].name@)
    }

    /// The fallback chains: for a family name, the names of the families
    /// that are asked when it lacks a glyph.
    pub open(crate) spec fn spec_fallbacks(&self) -> Seq<(Seq<char>, Seq<Seq<char>>)> {
        Seq::new(
            self.fallbacks@.len(),
            |i: int|
                (
                    self.fallbacks@[i].0@,
                    Seq::new(self.fallbacks@[i].1@.len(), |k: int| self.fallbacks@[i].1@[k]@),
                ),
        )
    }

    /// No two variants share a name, no two families do, every family
    /// names variants that exist, and every variant is well formed.
    pub open(crate) spec fn wf(&self) -> bool {
        &&& forall|i: int, j: int|
            0 <= i < j < self.variants@.len() ==> self.variants@[i].spec_name()
                != self.variants@[j].spec_name()
        &&& forall|i: int, j: int|
            0 <= i < j < self.families@.len() ==> self.families@[i].name@
                != self.families@[j].name@
        &&& forall|i: int|
            0 <= i < self.families@.len() ==> (#[trigger] self.families@[i]).within(
                self.variants@.len() as int,
            )
        &&& forall|i: int| 0 <= i < self.variants@.len() ==> (#[trigger] self.variants@[i]).wf()
    }

    /// Whether a family of this name is registered.
    pub open(crate) spec fn has_family(&self, name: Seq<char>) -> bool {
        name_index(self.family_names(), name) < self.families@.len()
    }

    /// Whether a variant of this name is registered.
    pub open(crate) spec fn has_variant(&self, name: Seq<char>) -> bool {
        name_index(self.variant_names(), name) < self.variants@.len()
    }

    /// A registry without fonts.
    pub fn new() -> (r: FontRegistry)
        ensures
            r.spec_variants().len() == 0,
            r.spec_families().len() == 0,
            r.spec_fallbacks().len() == 0,
            r.wf(),
    {
        FontRegistry { variants: Vec::new(), families: Vec::new(), fallbacks: Vec::new() }
    }

    /// The place of the variant of this name.
    pub fn find_variant(&self, name: &str) -> (r: Option<usize>)
        ensures
            match r {
                Some(i) => i == name_index(self.variant_names(), name@) && i
                    < self.spec_variants().len() && self.spec_variants()[i as int].spec_name()
                    == name@,
                None => !self.has_variant(name@),
            },
    {
        let mut i: usize = 0;
        while i < self.variants.len()
            invariant
                i <= self.variants.len(),
                forall|j: int| 0 <= j < i ==> self.variant_names()[j] != name@,
            decreases self.variants.len() - i,
        {
            if same_text(self.variants[i].name().as_str(), name) {
                proof {
                    lemma_first_index(self.variant_names(), name@, 0, i as int);
                }
                return Some(i);
            }
            i += 1;
        }
        proof {
            lemma_first_index(self.variant_names(), name@, 0, i as int);
        }
        None
    }

    /// The place of the family of this name.
    pub fn find_family(&self, name: &str) -> (r: Option<usize>)
        ensures
            match r {
                Some(i) => i == name_index(self.family_names(), name@) && i
                    < self.spec_families().len() && self.spec_families()[i as int].name@ == name@,
                None => !self.has_family(name@),
            },
    {
        let mut i: usize = 0;
        while i < self.families.len()
            invariant
                i <= self.families.len(),
                forall|j: int| 0 <= j < i ==> self.family_names()[j] != name@,
            decreases self.families.len() - i,
        {
            if same_text(self.families[i].name.as_str(), name) {
                proof {
                    lemma_first_index(self.family_names(), name@, 0, i as int);
                }
                return Some(i);
            }
            i += 1;
        }
        proof {
            lemma_first_index(self.family_names(), name@, 0, i as int);
        }
        None
    }

    /// The variant at a place.
    pub fn variant(&self, i: usize) -> (r: &FontData)
        requires
            i < self.spec_variants().len(),
        ensures
            *r == self.spec_variants()[i as int],
    {
        &self.variants[i]
    }

    /// The family at a place.
    pub fn family(&self, i: usize) -> (r: &FamilySlots)
        requires
            i < self.spec_families().len(),
        ensures
            *r == self.spec_families()[i as int],
    {
        &self.families[i]
    }

    /// The number of families.
    pub fn family_count(&self) -> (n: usize)
        ensures
            n == self.spec_families().len(),
    {
        self.families.len()
    }

    /// The number of variants.
    pub fn variant_count(&self) -> (n: usize)
        ensures
            n == self.spec_variants().len(),
    {
        self.variants.len()
    }
}


/// Whether no name occurs twice in the list.
pub open spec fn distinct_names(names: Seq<Seq<char>>) -> bool {
    forall|i: int, j: int| 0 <= i < j < names.len() ==> names[i] != names[j]
}

/// The variants of a family that are there, in the order regular, bold,
/// italic, bold italic.
pub open spec fn family_members(family: FontFamily) -> Seq<FontData> {
    let a: Seq<FontData> = match family.regular {
        Some(f) => seq![f],
        None => Seq::empty(),
    };
    let b: Seq<FontData> = match family.bold {
        Some(f) => a.push(f),
        None => a,
    };
    let c: Seq<FontData> = match family.italic {
        Some(f) => b.push(f),
        None => b,
    };
    match family.bold_italic {
        Some(f) => c.push(f),
        None => c,
    }
}

/// The places that the variants of a family take when they are appended
/// to `count` variants.
pub open spec fn family_slots(family: FontFamily, name: Seq<char>, count: int, single: bool) -> (
    Seq<char>,
    int,
    Option<int>,
    Option<int>,
    Option<int>,
    bool,
) {
    let after_regular = count + 1;
    let after_bold = if family.bold is Some {
        after_regular + 1
    } else {
        after_regular
    };
    let after_italic = if family.italic is Some {
        after_bold + 1
    } else {
        after_bold
    };
    (
        name,
        count,
        if family.bold is Some {
            Some(after_regular)
        } else {
            None
        },
        if family.italic is Some {
            Some(after_bold)
        } else {
            None
        },
        if family.bold_italic is Some {
            Some(after_italic)
        } else {
            None
        },
        single,
    )
}

impl FamilySlots {
    /// The family as a tuple of plain values.
    pub open spec fn as_tuple(&self) -> (
        Seq<char>,
        int,
        Option<int>,
        Option<int>,
        Option<int>,
        bool,
    ) {
        (
            self.name@,
            self.regular as int,
            match self.bold {
                Some(i) => Some(i as int),
                None => None,
            },
            match self.italic {
                Some(i) => Some(i as int),
                None => None,
            },
            match self.bold_italic {
                Some(i) => Some(i as int),
                None => None,
            },
            self.single,
        )
    }
}

/// Whether each of `members` has a name that none of `existing` and none
/// of the members before it has.
pub open spec fn fresh_names(existing: Seq<FontData>, members: Seq<FontData>) -> bool {
    &&& forall|i: int, k: int|
        0 <= i < existing.len() && 0 <= k < members.len() ==> (#[trigger] existing[i]).spec_name()
            != (#[trigger] members[k]).spec_name()
    &&& forall|i: int, k: int|
        0 <= i < k < members.len() ==> (#[trigger] members[i]).spec_name() != (
        #[trigger] members[k]).spec_name()
}

impl FontRegistry {
    /// Whether a family can be registered under `name`: it has its regular
    /// variant, the name is free, and the names of its variants are new and
    /// differ from each other.
    pub open(crate) spec fn accepts(&self, name: Seq<char>, family: FontFamily) -> bool {
        &&& family.regular is Some
        &&& !self.has_family(name)
        &&& fresh_names(self.variants@, family_members(family))
        &&& self.variants@.len() + 4 <= usize::MAX
    }

    fn name_is_free(&self, incoming: &Vec<FontData>, name: &str) -> (r: bool)
        ensures
            r == ((forall|i: int|
                0 <= i < self.variants@.len() ==> (#[trigger] self.variants@[i]).spec_name()
                    != name@) && (forall|i: int|
                0 <= i < incoming@.len() ==> (#[trigger] incoming@[i]).spec_name() != name@)),
    {
        let mut i: usize = 0;
        while i < self.variants.len()
            invariant
                i <= self.variants.len(),
                forall|j: int| 0 <= j < i ==> (#[trigger] self.variants@[j]).spec_name() != name@,
            decreases self.variants.len() - i,
        {
            if same_text(self.variants[i].name().as_str(), name) {
                return false;
            }
            i += 1;
        }
        let mut i: usize = 0;
        while i < incoming.len()
            invariant
                i <= incoming.len(),
                forall|j: int|
                    0 <= j < self.variants@.len() ==> (#[trigger] self.variants@[j]).spec_name()
                        != name@,
                forall|j: int| 0 <= j < i ==> (#[trigger] incoming@[j]).spec_name() != name@,
            decreases incoming.len() - i,
        {
            if same_text(incoming[i].name().as_str(), name) {
                return false;
            }
            i += 1;
        }
        true
    }

    /// Takes one variant of a family into `incoming` where its name is
    /// free, and says at which place of `incoming` it stands.
    fn take_member(&self, incoming: &mut Vec<FontData>, font: Option<FontData>) -> (r: Result<
        Option<usize>,
        PdfError,
    >)
        requires
            fresh_names(self.variants@, old(incoming)@),
            forall|i: int| 0 <= i < old(incoming)@.len() ==> (#[trigger] old(incoming)@[i]).wf(),
        ensures
            forall|i: int| 0 <= i < final(incoming)@.len() ==> (#[trigger] final(incoming)@[i]).wf(),
            match r {
                Ok(place) => match font {
                    Some(f) => place == Some(old(incoming)@.len() as usize) && final(incoming)@
                        == old(incoming)@.push(f) && fresh_names(
                        self.variants@,
                        final(incoming)@,
                    ),
                    None => place is None && final(incoming)@ == old(incoming)@,
                },
                Err(e) => font is Some && !fresh_names(
                    self.variants@,
                    old(incoming)@.push(font->Some_0),
                ) && e is FontAlreadyExists,
            },
    {
        match font {
            None => Ok(None),
            Some(f) => {
                let ghost grown = incoming@.push(f);
                proof {
                    use_type_invariant(&f);
                }
                if self.name_is_free(incoming, f.name().as_str()) {
                    let place = incoming.len();
                    incoming.push(f);
                    Ok(Some(place))
                } else {
                    proof {
                        let k = grown.len() - 1;
                        assert(grown[k] == f);
                        if fresh_names(self.variants@, grown) {
                            assert forall|i: int| 0 <= i < self.variants@.len() implies (
                            #[trigger] self.variants@[i]).spec_name() != f.spec_name() by {
                                assert(self.variants@[i].spec_name() != grown[k].spec_name());
                            }
                            assert forall|i: int| 0 <= i < incoming@.len() implies (
                            #[trigger] incoming@[i]).spec_name() != f.spec_name() by {
                                assert(grown[i] == incoming@[i]);
                                assert(grown[i].spec_name() != grown[k].spec_name());
                            }
                        }
                    }
                    Err(PdfError::FontAlreadyExists(f.name().clone()))
                }
            },
        }
    }
}


/// Names that are fresh stay fresh when members are left off the end.
pub proof fn lemma_fresh_prefix(existing: Seq<FontData>, members: Seq<FontData>, n: int)
    requires
        0 <= n <= members.len(),
        fresh_names(existing, members),
    ensures
        fresh_names(existing, members.take(n)),
{
    let head = members.take(n);
    assert forall|i: int, k: int| 0 <= i < existing.len() && 0 <= k < head.len() implies (
    #[trigger] existing[i]).spec_name() != (#[trigger] head[k]).spec_name() by {
        assert(head[k] == members[k]);
    }
    assert forall|i: int, k: int| 0 <= i < k < head.len() implies (#[trigger] head[i]).spec_name()
        != (#[trigger] head[k]).spec_name() by {
        assert(head[k] == members[k]);
        assert(head[i] == members[i]);
    }
}

fn shifted(place: Option<usize>, count: usize) -> (r: Option<usize>)
    requires
        place matches Some(p) ==> p + count <= usize::MAX,
    ensures
        match place {
            Some(p) => r == Some((p + count) as usize),
            None => r is None,
        },
{
    match place {
        Some(p) => Some(p + count),
        None => None,
    }
}

impl FontRegistry {
    /// Registers a family under `name`. Fails where the family lacks its
    /// regular variant, and where the name of the family or of one of its
    /// variants is taken.
    pub fn register_family(&mut self, name: &str, family: FontFamily, single: bool) -> (r: Result<
        (),
        PdfError,
    >)
        requires
            old(self).wf(),
        ensures
            final(self).wf(),
            final(self).spec_fallbacks() == old(self).spec_fallbacks(),
            r is Ok <==> old(self).accepts(name@, family),
            match r {
                Ok(_) => {
                    &&& final(self).spec_variants() == old(self).spec_variants() + family_members(
                        family,
                    )
                    &&& final(self).spec_families().len() == old(self).spec_families().len() + 1
                    &&& final(self).spec_families().drop_last() == old(self).spec_families()
                    &&& final(self).spec_families().last().as_tuple() == family_slots(
                        family,
                        name@,
                        old(self).spec_variants().len() as int,
                        single,
                    )
                },
                Err(e) => {
                    &&& final(self).spec_variants() == old(self).spec_variants()
                    &&& final(self).spec_families() == old(self).spec_families()
                    &&& if family.regular is None {
                        e is FontParseError
                    } else {
                        e is FontAlreadyExists
                    }
                    &&& family.regular is Some && old(self).has_family(name@) ==> (e matches PdfError::FontAlreadyExists(
                        n,
                    ) && n@ == name@)
                },
            },
    {
        let ghost members = family_members(family);
        let ghost existing = self.variants@;
        let FontFamily { regular, bold, italic, bold_italic } = family;
        if regular.is_none() {
            return Err(
                PdfError::FontParseError(
                    "FontFamily must have at least a regular variant".to_owned(),
                ),
            );
        }
        if self.find_family(name).is_some() {
            return Err(PdfError::FontAlreadyExists(name.to_owned()));
        }
        let count = self.variants.len();
        if count > usize::MAX - 4 {
            return Err(PdfError::FontAlreadyExists(name.to_owned()));
        }
        let mut incoming: Vec<FontData> = Vec::new();
        let ghost m1 = incoming@.push(regular->Some_0);
        proof {
            assert(m1 =~= members.take(1));
            if fresh_names(existing, members) {
                lemma_fresh_prefix(existing, members, 1);
            }
        }
        let place_regular = self.take_member(&mut incoming, regular)?;
        let ghost m2 = if bold is Some {
            incoming@.push(bold->Some_0)
        } else {
            incoming@
        };
        proof {
            assert(m2 =~= members.take(m2.len() as int));
            if fresh_names(existing, members) {
                lemma_fresh_prefix(existing, members, m2.len() as int);
            }
        }
        let place_bold = self.take_member(&mut incoming, bold)?;
        let ghost m3 = if italic is Some {
            incoming@.push(italic->Some_0)
        } else {
            incoming@
        };
        proof {
            assert(m3 =~= members.take(m3.len() as int));
            if fresh_names(existing, members) {
                lemma_fresh_prefix(existing, members, m3.len() as int);
            }
        }
        let place_italic = self.take_member(&mut incoming, italic)?;
        let ghost m4 = if bold_italic is Some {
            incoming@.push(bold_italic->Some_0)
        } else {
            incoming@
        };
        proof {
            assert(m4 =~= members);
        }
        let place_bold_italic = self.take_member(&mut incoming, bold_italic)?;
        assert(incoming@ =~= members);
        proof {
            lemma_first_index_bounds(self.family_names(), name@, 0);
            assert forall|i: int| 0 <= i < self.families@.len() implies self.families@[i].name@
                != name@ by {
                assert(self.family_names()[i] == self.families@[i].name@);
            }
        }
        let slots = FamilySlots {
            name: name.to_owned(),
            regular: count,
            bold: shifted(place_bold, count),
            italic: shifted(place_italic, count),
            bold_italic: shifted(place_bold_italic, count),
            single,
        };
        let ghost old_families = self.families@;
        self.variants.append(&mut incoming);
        self.families.push(slots);
        proof {
            assert(self.families@.drop_last() =~= old_families);
            assert(self.spec_fallbacks() =~= old(self).spec_fallbacks());
            assert forall|i: int, j: int| 0 <= i < j < self.variants@.len() implies self.variants@[i].spec_name()
                != self.variants@[j].spec_name() by {
                if j >= existing.len() {
                    if i >= existing.len() {
                        assert(members[i - existing.len()].spec_name() != members[j
                            - existing.len()].spec_name());
                    } else {
                        assert(existing[i].spec_name() != members[j
                            - existing.len()].spec_name());
                    }
                }
            }
            assert forall|i: int| 0 <= i < self.families@.len() implies (
            #[trigger] self.families@[i]).within(self.variants@.len() as int) by {
                if i < old_families.len() {
                    assert(old_families[i].within(existing.len() as int));
                }
            }
        }
        Ok(())
    }
}


/// The chain, if any, as a mathematical value.
pub open spec fn chain_spec(chain: Option<&Vec<String>>) -> Option<Seq<Seq<char>>> {
    match chain {
        Some(names) => Some(chain_view(names@)),
        None => None,
    }
}

/// The names of a chain as mathematical values.
pub open spec fn chain_view(chain: Seq<String>) -> Seq<Seq<char>> {
    Seq::new(chain.len(), |k: int| chain[k]@)
}

impl FontRegistry {
    /// The fallback chain that is set for a family.
    pub open(crate) spec fn chain_of(&self, family: Seq<char>) -> Option<Seq<Seq<char>>> {
        lookup(self.spec_fallbacks(), family)
    }

    /// The first variant, going through the families of `chain` from place
    /// `from` on, that serves the weight and the style and has a glyph for `c`.
    pub open(crate) spec fn fallback_font(
        &self,
        chain: Seq<Seq<char>>,
        from: int,
        weight: FontWeight,
        style: FontStyle,
        c: char,
    ) -> Option<int>
        decreases chain.len() - from,
    {
        if from < 0 || from >= chain.len() {
            None
        } else {
            let f = name_index(self.family_names(), chain[from]);
            let v = if f < self.families@.len() {
                self.families@[f].spec_variant(weight, style) as int
            } else {
                -1
            };
            if 0 <= v < self.variants@.len() && self.variants@[v].spec_has_glyph(c) {
                Some(v)
            } else {
                self.fallback_font(chain, from + 1, weight, style, c)
            }
        }
    }

    /// A variant that is found in a fallback chain is one of the registry.
    pub(crate) proof fn lemma_fallback_in_range(
        self,
        chain: Seq<Seq<char>>,
        from: int,
        weight: FontWeight,
        style: FontStyle,
        c: char,
    )
        ensures
            self.fallback_font(chain, from, weight, style, c) matches Some(v) ==> 0 <= v
                < self.variants@.len(),
        decreases chain.len() - from,
    {
        if 0 <= from < chain.len() {
            self.lemma_fallback_in_range(chain, from + 1, weight, style, c);
        }
    }

    /// The variant that sets the character `c`: the primary variant where
    /// it has a glyph for it, else the first of the fallback chain that
    /// has one, else the primary variant again.
    pub open(crate) spec fn font_for(
        &self,
        primary: int,
        chain: Option<Seq<Seq<char>>>,
        weight: FontWeight,
        style: FontStyle,
        c: char,
    ) -> int {
        match chain {
            Some(names) => if self.variants@[primary].spec_has_glyph(c) {
                primary
            } else {
                match self.fallback_font(names, 0, weight, style, c) {
                    Some(v) => v,
                    None => primary,
                }
            },
            None => primary,
        }
    }

    /// The function that gives each character the variant that sets it.
    pub open(crate) spec fn font_map(
        &self,
        primary: int,
        chain: Option<Seq<Seq<char>>>,
        weight: FontWeight,
        style: FontStyle,
    ) -> spec_fn(char) -> int {
        |c: char| self.font_for(primary, chain, weight, style, c)
    }

    fn chain_index(&self, family: &str) -> (i: usize)
        ensures
            i == find(self.spec_fallbacks(), family@, 0),
            i <= self.fallbacks@.len(),
    {
        let mut i: usize = 0;
        while i < self.fallbacks.len()
            invariant
                i <= self.fallbacks.len(),
                forall|j: int| 0 <= j < i ==> (#[trigger] self.spec_fallbacks()[j]).0 != family@,
            decreases self.fallbacks.len() - i,
        {
            if same_text(self.fallbacks[i].0.as_str(), family) {
                proof {
                    lemma_find_unique(self.spec_fallbacks(), family@, 0, i as int);
                }
                return i;
            }
            i += 1;
        }
        proof {
            lemma_find_unique(self.spec_fallbacks(), family@, 0, i as int);
        }
        i
    }

    /// The fallback chain that is set for a family.
    pub fn chain(&self, family: &str) -> (r: Option<&Vec<String>>)
        ensures
            match r {
                Some(names) => self.chain_of(family@) == Some(chain_view(names@)),
                None => self.chain_of(family@) is None,
            },
    {
        let i = self.chain_index(family);
        if i < self.fallbacks.len() {
            assert(self.spec_fallbacks()[i as int].1 =~= chain_view(self.fallbacks@[i as int].1@));
            Some(&self.fallbacks[i].1)
        } else {
            None
        }
    }

    /// The variant that sets the character `c`.
    pub fn font_of(
        &self,
        primary: usize,
        chain: Option<&Vec<String>>,
        weight: FontWeight,
        style: FontStyle,
        c: char,
    ) -> (r: usize)
        requires
            primary < self.spec_variants().len(),
        ensures
            r < self.spec_variants().len(),
            r == self.font_for(primary as int, chain_spec(chain), weight, style, c),
    {
        let names = match chain {
            Some(names) => names,
            None => {
                return primary;
            },
        };
        if self.variants[primary].has_glyph(c) {
            return primary;
        }
        let ghost ch = chain_view(names@);
        let mut k: usize = 0;
        while k < names.len()
            invariant
                k <= names.len(),
                ch == chain_view(names@),
                primary < self.spec_variants().len(),
                !self.variants@[primary as int].spec_has_glyph(c),
                chain == Some(names),
                self.fallback_font(ch, 0, weight, style, c) == self.fallback_font(
                    ch,
                    k as int,
                    weight,
                    style,
                    c,
                ),
            decreases names.len() - k,
        {
            assert(ch[k as int] == names@[k as int]@);
            match self.find_family(names[k].as_str()) {
                Some(f) => {
                    let v = self.families[f].variant(weight, style);
                    if v < self.variants.len() && self.variants[v].has_glyph(c) {
                        return v;
                    }
                },
                None => {},
            }
            k += 1;
        }
        primary
    }

    /// Splits `text` into runs that are set by the same variant, each
    /// character by the variant that `font_of` gives for it.
    pub fn segment_text(
        &self,
        text: &str,
        primary: usize,
        chain: Option<&Vec<String>>,
        weight: FontWeight,
        style: FontStyle,
    ) -> (r: Vec<Segment>)
        requires
            primary < self.spec_variants().len(),
        ensures
            segments_view(r@) == segments_of(
                text@,
                self.font_map(primary as int, chain_spec(chain), weight, style),
            ),
            forall|i: int| 0 <= i < r@.len() ==> (#[trigger] r@[i]).font < self.spec_variants().len(),
    {
        let ghost font_of = self.font_map(primary as int, chain_spec(chain), weight, style);
        let chars = chars_of(text);
        let mut done: Vec<Segment> = Vec::new();
        let mut cur: Vec<char> = Vec::new();
        let mut font: usize = 0;
        let mut i: usize = 0;
        while i < chars.len()
            invariant
                i <= chars.len(),
                primary < self.spec_variants().len(),
                font_of == self.font_map(primary as int, chain_spec(chain), weight, style),
                segments_view(done@) == scan_segments(chars@.take(i as int), font_of).0,
                cur@ == scan_segments(chars@.take(i as int), font_of).1,
                font as int == scan_segments(chars@.take(i as int), font_of).2,
                forall|j: int|
                    0 <= j < done@.len() ==> (#[trigger] done@[j]).font < self.spec_variants().len(),
                cur@.len() > 0 ==> font < self.spec_variants().len(),
            decreases chars.len() - i,
        {
            let c = chars[i];
            let f = self.font_of(primary, chain, weight, style, c);
            proof {
                let t1 = chars@.take(i + 1);
                assert(t1.drop_last() =~= chars@.take(i as int));
                assert(t1.last() == c);
            }
            let ghost before = segments_view(done@);
            if cur.len() == 0 {
                cur.push(c);
                font = f;
                assert(cur@ =~= seq![c]);
            } else if f == font {
                cur.push(c);
            } else {
                let mut text: Vec<char> = Vec::new();
                std::mem::swap(&mut text, &mut cur);
                done.push(Segment { text, font });
                assert(segments_view(done@) =~= before.push((text@, font as int)));
                cur.push(c);
                font = f;
                assert(cur@ =~= seq![c]);
            }
            i += 1;
        }
        assert(chars@.take(chars.len() as int) =~= chars@);
        let ghost before = segments_view(done@);
        if cur.len() > 0 {
            done.push(Segment { text: cur, font });
            assert(segments_view(done@) =~= before.push((cur@, font as int)));
        }
        done
    }
}


/// A copy of a list of names.
pub fn copy_names(names: &Vec<String>) -> (r: Vec<String>)
    ensures
        chain_view(r@) == chain_view(names@),
{
    let mut out: Vec<String> = Vec::new();
    let mut i: usize = 0;
    while i < names.len()
        invariant
            i <= names.len(),
            out@.len() == i,
            forall|j: int| 0 <= j < i ==> (#[trigger] out@[j])@ == names@[j]@,
        decreases names.len() - i,
    {
        out.push(names[i].clone());
        i += 1;
    }
    assert(chain_view(out@) =~= chain_view(names@));
    out
}

impl FontRegistry {
    /// The place in `chain` of the first name that is no family; the
    /// length of the chain where all are.
    pub open(crate) spec fn first_unknown(&self, chain: Seq<Seq<char>>, from: int) -> int
        decreases chain.len() - from,
    {
        if from < 0 || from >= chain.len() {
            chain.len() as int
        } else if !self.has_family(chain[from]) {
            from
        } else {
            self.first_unknown(chain, from + 1)
        }
    }

    fn store_chain(&mut self, family: &str, chain: Vec<String>)
        ensures
            final(self).spec_fallbacks() == assign(
                old(self).spec_fallbacks(),
                family@,
                chain_view(chain@),
            ),
            final(self).spec_variants() == old(self).spec_variants(),
            final(self).spec_families() == old(self).spec_families(),
    {
        let i = self.chain_index(family);
        let ghost before = self.spec_fallbacks();
        if i < self.fallbacks.len() {
            self.fallbacks[i] = (family.to_owned(), chain);
        } else {
            self.fallbacks.push((family.to_owned(), chain));
        }
        assert(self.spec_fallbacks() =~= assign(before, family@, chain_view(chain@)));
    }

    /// Sets the fallback chain of a family. The family and every family of
    /// the chain have to be registered.
    pub fn set_fallback(&mut self, family: &str, chain: &Vec<String>) -> (r: Result<(), PdfError>)
        ensures
            final(self).spec_variants() == old(self).spec_variants(),
            final(self).spec_families() == old(self).spec_families(),
            old(self).wf() ==> final(self).wf(),
            match r {
                Ok(_) => {
                    &&& old(self).has_family(family@)
                    &&& old(self).first_unknown(chain_view(chain@), 0) == chain@.len()
                    &&& final(self).spec_fallbacks() == assign(
                        old(self).spec_fallbacks(),
                        family@,
                        chain_view(chain@),
                    )
                },
                Err(e) => {
                    &&& final(self).spec_fallbacks() == old(self).spec_fallbacks()
                    &&& e matches PdfError::FontNotFound(n)
                    &&& if !old(self).has_family(family@) {
                        n@ == family@
                    } else {
                        let k = old(self).first_unknown(chain_view(chain@), 0);
                        k < chain@.len() && n@ == chain@[k]@
                    }
                },
            },
    {
        if self.find_family(family).is_none() {
            return Err(PdfError::FontNotFound(family.to_owned()));
        }
        let ghost names = chain_view(chain@);
        let mut k: usize = 0;
        while k < chain.len()
            invariant
                k <= chain.len(),
                names == chain_view(chain@),
                *self == *old(self),
                self.has_family(family@),
                self.first_unknown(names, 0) == self.first_unknown(names, k as int),
            decreases chain.len() - k,
        {
            assert(names[k as int] == chain@[k as int]@);
            if self.find_family(chain[k].as_str()).is_none() {
                let missing = chain[k].clone();
                assert(!self.has_family(names[k as int]));
                assert(self.first_unknown(names, k as int) == k);
                assert(missing@ == chain@[k as int]@);
                assert(old(self).has_family(family@));
                return Err(PdfError::FontNotFound(missing));
            }
            k += 1;
        }
        self.store_chain(family, copy_names(chain));
        Ok(())
    }

    /// Adds one family to the end of the fallback chain of another. Both
    /// have to be families that were added as single fonts.
    pub fn add_fallback(&mut self, primary: &str, fallback: &str) -> (r: Result<(), PdfError>)
        ensures
            final(self).spec_variants() == old(self).spec_variants(),
            final(self).spec_families() == old(self).spec_families(),
            old(self).wf() ==> final(self).wf(),
            match r {
                Ok(_) => {
                    &&& old(self).is_single(primary@)
                    &&& old(self).is_single(fallback@)
                    &&& final(self).spec_fallbacks() == assign(
                        old(self).spec_fallbacks(),
                        primary@,
                        (match old(self).chain_of(primary@) {
                            Some(c) => c,
                            None => Seq::empty(),
                        }).push(fallback@),
                    )
                },
                Err(e) => {
                    &&& final(self).spec_fallbacks() == old(self).spec_fallbacks()
                    &&& e matches PdfError::FontNotFound(n)
                    &&& if !old(self).is_single(primary@) {
                        n@ == primary@
                    } else {
                        !old(self).is_single(fallback@) && n@ == fallback@
                    }
                },
            },
    {
        if !self.single(primary) {
            return Err(PdfError::FontNotFound(primary.to_owned()));
        }
        if !self.single(fallback) {
            return Err(PdfError::FontNotFound(fallback.to_owned()));
        }
        let mut chain: Vec<String> = match self.chain(primary) {
            Some(names) => copy_names(names),
            None => Vec::new(),
        };
        let ghost before = chain_view(chain@);
        assert(before =~= (match self.chain_of(primary@) {
            Some(c) => c,
            None => Seq::empty(),
        }));
        chain.push(fallback.to_owned());
        assert(chain_view(chain@) =~= before.push(fallback@));
        self.store_chain(primary, chain);
        Ok(())
    }

    /// Whether a family of this name was added as a single font.
    pub open(crate) spec fn is_single(&self, name: Seq<char>) -> bool {
        let i = name_index(self.family_names(), name);
        i < self.families@.len() && self.families@[i].single
    }

    /// Whether a family of this name was added as a single font.
    pub fn single(&self, name: &str) -> (r: bool)
        ensures
            r == self.is_single(name@),
    {
        match self.find_family(name) {
            Some(i) => self.families[i].single,
            None => false,
        }
    }

    /// Forgets the fallback chain of a family.
    pub fn clear_fallback(&mut self, family: &str)
        ensures
            final(self).spec_variants() == old(self).spec_variants(),
            final(self).spec_families() == old(self).spec_families(),
            old(self).wf() ==> final(self).wf(),
            final(self).chain_of(family@) is None,
            final(self).spec_fallbacks() == old(self).spec_fallbacks().filter(
                |e: (Seq<char>, Seq<Seq<char>>)| e.0 != family@,
            ),
    {
        let ghost before = self.spec_fallbacks();
        let ghost keep = |e: (Seq<char>, Seq<Seq<char>>)| e.0 != family@;
        let mut kept: Vec<(String, Vec<String>)> = Vec::new();
        let mut all: Vec<(String, Vec<String>)> = Vec::new();
        std::mem::swap(&mut all, &mut self.fallbacks);
        let mut i: usize = 0;
        while i < all.len()
            invariant
                i <= all.len(),
                all@.len() == before.len(),
                forall|j: int|
                    0 <= j < all@.len() ==> (#[trigger] all@[j]).0@ == before[j].0 && chain_view(
                        all@[j].1@,
                    ) == before[j].1,
                self.fallbacks@.len() == 0,
                self.variants == old(self).variants,
                self.families == old(self).families,
                keep == (|e: (Seq<char>, Seq<Seq<char>>)| e.0 != family@),
                kept@.len() == before.take(i as int).filter(keep).len(),
                forall|j: int|
                    0 <= j < kept@.len() ==> (#[trigger] kept@[j]).0@ == before.take(
                        i as int,
                    ).filter(keep)[j].0 && chain_view(kept@[j].1@) == before.take(i as int).filter(
                        keep,
                    )[j].1,
            decreases all.len() - i,
        {
            proof {
                let t1 = before.take(i + 1);
                assert(t1.drop_last() =~= before.take(i as int));
                assert(t1.last() == before[i as int]);
                reveal(Seq::filter);
            }
            if !same_text(all[i].0.as_str(), family) {
                kept.push((all[i].0.clone(), copy_names(&all[i].1)));
            }
            i += 1;
        }
        assert(before.take(all.len() as int) =~= before);
        self.fallbacks = kept;
        assert(self.spec_fallbacks() =~= before.filter(keep));
        proof {
            let after = self.spec_fallbacks();
            assert forall|j: int| 0 <= j < after.len() implies (#[trigger] after[j]).0
                != family@ by {
                assert(before.filter(keep).contains(after[j]));
                before.lemma_filter_contains_rev(keep, after[j]);
            }
            lemma_find_unique(after, family@, 0, after.len() as int);
        }
    }
}


/// Whether `after` is `before` with its subset settled: made anew where
/// one is wanted, gone where glyphs of the font are written and none can
/// be made, and as it was where no glyph of the font is written.
pub open spec fn subset_settled(before: FontData, after: FontData) -> bool {
    if before.wants_subset() {
        after.subset_current()
    } else if before.is_used() {
        after.spec_subset() is None
    } else {
        after.spec_subset() == before.spec_subset()
    }
}

/// Whether the subset of one of the fonts cannot be made.
pub open spec fn any_subset_fails(variants: Seq<FontData>) -> bool {
    exists|j: int| 0 <= j < variants.len() && (#[trigger] variants[j]).subset_fails()
}

/// Whether `after` is `before` with more used characters and, maybe,
/// another subset: the same name, the same file, the same face.
pub open spec fn same_font(before: FontData, after: FontData) -> bool {
    &&& after.spec_name() == before.spec_name()
    &&& after.spec_data() == before.spec_data()
    &&& after.has_face() == before.has_face()
}

impl FontRegistry {
    /// Marks the characters of `text` as used from the variant at place `i`.
    pub fn use_chars(&mut self, i: usize, text: &str)
        requires
            i < old(self).spec_variants().len(),
        ensures
            final(self).spec_families() == old(self).spec_families(),
            final(self).spec_fallbacks() == old(self).spec_fallbacks(),
            final(self).spec_variants().len() == old(self).spec_variants().len(),
            forall|j: int|
                0 <= j < old(self).spec_variants().len() && j != i ==> final(self).spec_variants()[j] == old(self).spec_variants()[j],
            same_font(old(self).spec_variants()[i as int], final(self).spec_variants()[i as int]),
            final(self).spec_variants()[i as int].spec_subset() == old(self).spec_variants()[i as int].spec_subset(),
            final(self).spec_variants()[i as int].uses_also(
                old(self).spec_variants()[i as int],
                text@,
            ),
            final(self).variant_names() == old(self).variant_names(),
            old(self).wf() ==> final(self).wf(),
    {
        self.variants[i].add_chars(text);
        let ghost before = old(self).variants@[i as int];
        let ghost after = self.variants@[i as int];
        assert(after.uses_also(before, text@));
        assert(self.variant_names() =~= old(self).variant_names()) by {
            assert forall|j: int| 0 <= j < self.variants@.len() implies self.variant_names()[j]
                == old(self).variant_names()[j] by {
                if j != i {
                    assert(self.variants@[j] == old(self).variants@[j]);
                }
            }
        }
        assert(old(self).wf() ==> self.wf()) by {
            if old(self).wf() {
                assert forall|a: int, b: int| 0 <= a < b < self.variants@.len() implies self.variants@[a].spec_name()
                    != self.variants@[b].spec_name() by {
                    assert(self.variant_names()[a] == old(self).variant_names()[a]);
                    assert(self.variant_names()[b] == old(self).variant_names()[b]);
                }
                assert forall|j: int| 0 <= j < self.variants@.len() implies (
                #[trigger] self.variants@[j]).wf() by {
                    if j != i {
                        assert(self.variants@[j] == old(self).variants@[j]);
                    }
                }
            }
        }
    }

    /// Makes the subsets of all variants that have a face and used
    /// characters. Stops at the first variant that cannot be subsetted.
    pub fn subset_all(&mut self) -> (r: Result<(), PdfError>)
        ensures
            final(self).spec_families() == old(self).spec_families(),
            final(self).spec_fallbacks() == old(self).spec_fallbacks(),
            final(self).spec_variants().len() == old(self).spec_variants().len(),
            final(self).variant_names() == old(self).variant_names(),
            forall|j: int|
                0 <= j < old(self).spec_variants().len() ==> same_font(
                    old(self).spec_variants()[j],
                    #[trigger] final(self).spec_variants()[j],
                ) && final(self).spec_variants()[j].used() == old(self).spec_variants()[j].used(),
            old(self).wf() ==> final(self).wf(),
            match r {
                Ok(_) => forall|j: int|
                    0 <= j < final(self).spec_variants().len() && (#[trigger] final(self).spec_variants()[j]).wants_subset() ==> final(self).spec_variants()[j].subset_current(),
                Err(e) => e is FontSubsetError,
            },
            r is Err <==> any_subset_fails(old(self).spec_variants()),
            forall|j: int|
                0 <= j < old(self).spec_variants().len() && !(#[trigger] old(self).spec_variants()[j]).is_used()
                    ==> final(self).spec_variants()[j].spec_subset() == old(self).spec_variants()[j].spec_subset(),
            r is Ok ==> forall|j: int|
                0 <= j < old(self).spec_variants().len() ==> subset_settled(
                    #[trigger] old(self).spec_variants()[j],
                    final(self).spec_variants()[j],
                ),
    {
        let n = self.variants.len();
        let mut i: usize = 0;
        while i < n
            invariant
                i <= n,
                forall|j: int|
                    0 <= j < n && !(#[trigger] old(self).variants@[j]).is_used() ==> self.variants@[j].spec_subset()
                        == old(self).variants@[j].spec_subset(),
                forall|j: int|
                    0 <= j < i ==> subset_settled(#[trigger] old(self).variants@[j], self.variants@[j]),
                forall|j: int| i <= j < n ==> #[trigger] self.variants@[j] == old(self).variants@[j],
                forall|j: int| 0 <= j < i ==> !(#[trigger] old(self).variants@[j]).subset_fails(),
                n == self.variants@.len(),
                n == old(self).variants@.len(),
                self.families == old(self).families,
                self.fallbacks == old(self).fallbacks,
                forall|j: int|
                    0 <= j < n ==> same_font(old(self).variants@[j], #[trigger] self.variants@[j])
                        && self.variants@[j].used() == old(self).variants@[j].used(),
                forall|j: int|
                    0 <= j < n ==> (#[trigger] self.variants@[j]).wf() == old(self).variants@[j].wf()
                        || self.variants@[j].wf(),
                forall|j: int|
                    0 <= j < i && (#[trigger] self.variants@[j]).wants_subset()
                        ==> self.variants@[j].subset_current(),
            decreases n - i,
        {
            let ghost before = self.variants@;
            let r = self.variants[i].create_subset();
            proof {
                assert forall|j: int| 0 <= j < n implies same_font(
                    old(self).variants@[j],
                    #[trigger] self.variants@[j],
                ) && self.variants@[j].used() == old(self).variants@[j].used() by {
                    assert(same_font(old(self).variants@[j], before[j]));
                    if j != i {
                        assert(self.variants@[j] == before[j]);
                    }
                }
                assert forall|j: int|
                    0 <= j < n implies (#[trigger] self.variants@[j]).wf() == old(self).variants@[j].wf() || self.variants@[j].wf() by {
                    if j != i {
                        assert(self.variants@[j] == before[j]);
                        assert(before[j].wf() == old(self).variants@[j].wf() || before[j].wf());
                    }
                }
            }
            match r {
                Ok(_) => {
                    proof {
                        assert forall|j: int|
                            0 <= j < i + 1 && (#[trigger] self.variants@[j]).wants_subset() implies self.variants@[j].subset_current() by {
                            if j != i {
                                assert(self.variants@[j] == before[j]);
                            }
                        }
                    }
                },
                Err(e) => {
                    proof {
                        self.lemma_names_kept(*old(self));
                        assert(old(self).variants@[i as int].subset_fails());
                    }
                    return Err(e);
                },
            }
            i += 1;
        }
        proof {
            self.lemma_names_kept(*old(self));
        }
        Ok(())
    }

    /// A registry whose fonts kept their names and whose families are the
    /// same is well formed where the one before was.
    pub(crate) proof fn lemma_names_kept(self, before: FontRegistry)
        requires
            self.families == before.families,
            self.variants@.len() == before.variants@.len(),
            forall|j: int|
                0 <= j < before.variants@.len() ==> same_font(
                    before.variants@[j],
                    #[trigger] self.variants@[j],
                ),
            forall|j: int|
                0 <= j < before.variants@.len() ==> (#[trigger] self.variants@[j]).wf()
                    == before.variants@[j].wf() || self.variants@[j].wf(),
        ensures
            self.variant_names() == before.variant_names(),
            before.wf() ==> self.wf(),
    {
        assert(self.variant_names() =~= before.variant_names());
        if before.wf() {
            assert forall|a: int, b: int| 0 <= a < b < self.variants@.len() implies self.variants@[a].spec_name()
                != self.variants@[b].spec_name() by {
                assert(same_font(before.variants@[a], self.variants@[a]));
                assert(same_font(before.variants@[b], self.variants@[b]));
            }
        }
    }
}

} // verus!
