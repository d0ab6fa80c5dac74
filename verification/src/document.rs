//! The document engine: registers fonts, buffers text and images page by
//! page, and writes everything into the object graph when the document is
//! finished.

use vstd::prelude::*;
use vstd::string::StringExecFns;
use vstd::string::StringSliceAdditionalSpecFns;
use crate::font::{
    built_from, family_is_built, files_make_family, lemma_variant_names_differ, parses_if_given,
    variant_name, FontData, FontFamily,
    FontFamilyBuilder, FontStyle, FontWeight,
};
use crate::glyphs::ttf_parse_failure;
use crate::assoc::{assign, find, lemma_find_unique, lookup};
use crate::image::{
    calculate_scaled_dimensions, embedded_image, generate_image_operators, image_operators,
    scaled_dimensions, ImageScaleMode, ImageXObject,
};
use crate::object::{copy_bytes, nm, Object, ObjectId, Value};
use crate::pages::{
    growable_root, missing_object, page_at, page_height_of, page_with_resources, HeightOutcome,
};
use crate::segment::{segments_of, segments_view, Segment};
use crate::strings::{decimal_chars, push_decimal, string_of};
use crate::text::{
    align_start, aligned_start, generate_text_operators, text_operators, TextRenderContext,
};
use crate::strings::hex4;
use crate::font::hex_run;
use crate::registry::{
    any_subset_fails, subset_settled, chain_spec, chain_view, family_members, family_slots, fresh_names, same_font, FamilySlots,
    FontRegistry,
};
use crate::store::{dictionary_at, object_at, pages_of, ObjectStore, StoreView};
use crate::pages::{bare_stream, copy_refused, existing_content, with_page_copy};
use crate::store::with_objects;
use crate::reach::{law_pages_kept, no_orphans, swept};
use crate::tree::{last_page_added, law_plain_pages, plain_tree};
use crate::font::{
    cid_font_entries, cmap_text, descriptor_entries, font_file_entries, tounicode_entries,
    type0_entries, widths_value,
};
use crate::units::{clamp_i64, Color, Fixed};
use crate::{Align, PdfError};

verus! {

/// A run of text that waits to be written into its page.
pub struct BufferedTextOp {
    /// The text to show.
    pub text: String,
    /// The place of the font variant in the registry.
    pub font: usize,
    /// The number of the font's resource name on the page.
    pub tag: u32,
    /// The page, counted from one.
    pub page: usize,
    /// Where the run starts, from the left edge of the page.
    pub x: Fixed,
    /// The baseline, from the bottom edge of the page.
    pub y: Fixed,
    /// The font size in points.
    pub font_size: Fixed,
    /// The colour of the text.
    pub color: Color,
}

/// The resource name `F<number>` that a font has on a page.
pub struct FontTag {
    pub page: usize,
    pub font: usize,
    pub number: u32,
}

/// An image that is embedded: the hash of its data, its object and its
/// size in pixels.
pub struct EmbeddedImage {
    pub hash: u64,
    pub object: ObjectId,
    pub width: u32,
    pub height: u32,
}

/// The resource name `Im<number>` that an image has on a page.
pub struct ImageTag {
    pub page: usize,
    pub number: u32,
    pub object: ObjectId,
}

/// A PDF document that is being filled.
pub struct PdfDocument {
    pub(crate) inner: ObjectStore,
    pub(crate) fonts: FontRegistry,
    pub(crate) current_family: Option<String>,
    pub(crate) current_weight: FontWeight,
    pub(crate) current_style: FontStyle,
    pub(crate) current_font_size: Fixed,
    pub(crate) current_text_color: Color,
    pub(crate) embedded_fonts: Vec<(usize, ObjectId)>,
    pub(crate) page_font_resources: Vec<FontTag>,
    pub(crate) next_font_resource: u32,
    pub(crate) embedded_images: Vec<EmbeddedImage>,
    pub(crate) page_image_resources: Vec<ImageTag>,
    pub(crate) next_image_resource: u32,
    pub(crate) page_content_buffer: Vec<(usize, Vec<u8>)>,
    pub(crate) buffered_text_ops: Vec<BufferedTextOp>,
}

/// Whether on every page no two resource names for fonts share their
/// number or their font.
pub open spec fn font_tags_apart(tags: Seq<FontTag>) -> bool {
    forall|i: int, j: int|
        0 <= i < j < tags.len() && (#[trigger] tags[i]).page == (#[trigger] tags[j]).page
            ==> tags[i].number != tags[j].number && tags[i].font != tags[j].font
}

/// Whether on every page no two resource names for images share their
/// number or their object.
pub open spec fn image_tags_apart(tags: Seq<ImageTag>) -> bool {
    forall|i: int, j: int|
        0 <= i < j < tags.len() && (#[trigger] tags[i]).page == (#[trigger] tags[j]).page
            ==> tags[i].number != tags[j].number && tags[i].object != tags[j].object
}

/// The name of the selected family, if any, as a mathematical value.
pub open spec fn name_view(name: Option<String>) -> Option<Seq<char>> {
    match name {
        Some(n) => Some(n@),
        None => None,
    }
}

impl PdfDocument {
    /// The object graph.
    pub open(crate) spec fn graph(&self) -> ObjectStore {
        self.inner
    }

    /// The registered fonts.
    pub open(crate) spec fn registry(&self) -> FontRegistry {
        self.fonts
    }

    /// The name of the selected family.
    pub open(crate) spec fn family(&self) -> Option<Seq<char>> {
        name_view(self.current_family)
    }

    pub open(crate) spec fn weight(&self) -> FontWeight {
        self.current_weight
    }

    pub open(crate) spec fn style(&self) -> FontStyle {
        self.current_style
    }

    pub open(crate) spec fn font_size(&self) -> Fixed {
        self.current_font_size
    }

    pub open(crate) spec fn text_color(&self) -> Color {
        self.current_text_color
    }

    /// The runs of text that wait to be written.
    pub open(crate) spec fn ops(&self) -> Seq<BufferedTextOp> {
        self.buffered_text_ops@
    }

    /// The resource names of fonts on pages.
    pub open(crate) spec fn font_tags(&self) -> Seq<FontTag> {
        self.page_font_resources@
    }

    /// The resource names of images on pages.
    pub open(crate) spec fn image_tags(&self) -> Seq<ImageTag> {
        self.page_image_resources@
    }

    /// The images that are embedded, by the hash of their data.
    pub open(crate) spec fn images(&self) -> Seq<EmbeddedImage> {
        self.embedded_images@
    }

    /// The fonts that are embedded, by their place in the registry.
    pub open(crate) spec fn embedded(&self) -> Seq<(usize, ObjectId)> {
        self.embedded_fonts@
    }

    /// The operators that wait to be written, page by page.
    pub open(crate) spec fn buffers(&self) -> Seq<(usize, Seq<u8>)> {
        Seq::new(
            self.page_content_buffer@.len(),
            |i: int| (self.page_content_buffer@[i].0, self.page_content_buffer@[i].1@),
        )
    }

    /// The numbers of the next resource names for fonts and for images.
    pub open(crate) spec fn counters(&self) -> (u32, u32) {
        (self.next_font_resource, self.next_image_resource)
    }

    /// Every character of a buffered run is marked as used in the run's font.
    pub open(crate) spec fn chars_covered(&self) -> bool {
        &&& forall|i: int|
            0 <= i < self.ops().len() ==> (#[trigger] self.ops()[i]).font
                < self.fonts.spec_variants().len()
        &&& forall|i: int, k: int|
            0 <= i < self.ops().len() && 0 <= k < self.ops()[i].text@.len()
                ==> self.fonts.spec_variants()[self.ops()[i].font as int].used().contains(
                #[trigger] self.ops()[i].text@[k],
            )
    }

    /// The resource names are numbered below the counters, no number is
    /// given twice, and every font named exists.
    pub open(crate) spec fn tags_numbered(&self) -> bool {
        &&& forall|i: int|
            0 <= i < self.font_tags().len() ==> (#[trigger] self.font_tags()[i]).number
                < self.next_font_resource && self.font_tags()[i].font
                < self.fonts.spec_variants().len()
        &&& font_tags_apart(self.font_tags())
        &&& forall|i: int|
            0 <= i < self.image_tags().len() ==> (#[trigger] self.image_tags()[i]).number
                < self.next_image_resource
        &&& image_tags_apart(self.image_tags())
    }

    /// The document is consistent: its graph and its fonts are well
    /// formed, the selected family exists, the characters of buffered runs
    /// are marked as used, and resource names are numbered apart.
    pub open(crate) spec fn wf(&self) -> bool {
        &&& self.inner.wf()
        &&& self.fonts.wf()
        &&& (self.family() matches Some(n) ==> self.fonts.has_family(n))
        &&& self.chars_covered()
        &&& self.tags_numbered()
    }

    /// A document over the object graph of a template. Nothing is
    /// registered, selected or buffered; the font size is 12 points and
    /// the text colour black.
    pub fn new(inner: ObjectStore) -> (doc: PdfDocument)
        ensures
            doc.wf(),
            doc.graph().objects == inner.objects,
            doc.graph().trailer == inner.trailer,
            doc.graph()@.max_id >= inner@.max_id,
            doc.registry().spec_variants().len() == 0,
            doc.registry().spec_families().len() == 0,
            doc.family() is None,
            doc.weight() == FontWeight::Regular,
            doc.style() == FontStyle::Normal,
            doc.font_size().micros == 12_000_000,
            doc.text_color().r.micros == 0 && doc.text_color().g.micros == 0
                && doc.text_color().b.micros == 0,
            doc.ops().len() == 0,
            doc.font_tags().len() == 0,
            doc.image_tags().len() == 0,
            doc.images().len() == 0,
            doc.embedded().len() == 0,
            doc.buffers().len() == 0,
            doc.counters() == (1u32, 1u32),
    {
        let ObjectStore { objects, trailer, max_id } = inner;
        PdfDocument {
            inner: ObjectStore::from_parts(objects, trailer, max_id),
            fonts: FontRegistry::new(),
            current_family: None,
            current_weight: FontWeight::Regular,
            current_style: FontStyle::Normal,
            current_font_size: Fixed::from_int(12),
            current_text_color: Color::black(),
            embedded_fonts: Vec::new(),
            page_font_resources: Vec::new(),
            next_font_resource: 1,
            embedded_images: Vec::new(),
            page_image_resources: Vec::new(),
            next_image_resource: 1,
            page_content_buffer: Vec::new(),
            buffered_text_ops: Vec::new(),
        }
    }

    /// The object graph of the document.
    pub fn inner(&self) -> (r: &ObjectStore)
        ensures
            *r == self.graph(),
    {
        &self.inner
    }

    /// The object graph of the document, to be changed in its place.
    /// Nothing else of the document changes with it.
    pub fn inner_mut(&mut self) -> (r: &mut ObjectStore)
        ensures
            *r == old(self).graph(),
            final(self).graph() == *final(r),
            final(self).only_graph_changed(*old(self)),
            old(self).wf() && final(r).wf() ==> final(self).wf(),
    {
        proof {
            let before = *self;
            assert forall|g: ObjectStore| before.wf() && #[trigger] g.wf() implies (PdfDocument {
                inner: g,
                ..before
            }).wf() by {
                let after = PdfDocument { inner: g, ..before };
                after.lemma_graph_changed(before);
            }
        }
        &mut self.inner
    }

    /// Gives up the document for its object graph.
    pub fn into_inner(self) -> (r: ObjectStore)
        ensures
            r == self.graph(),
    {
        self.inner
    }

    /// The number of pages.
    pub fn page_count(&self) -> (n: usize)
        ensures
            n == pages_of(self.graph()@).len(),
    {
        self.inner.page_count()
    }

    /// The object ids of the pages, in page order.
    pub fn get_page_ids(&self) -> (r: Vec<ObjectId>)
        ensures
            r@ == pages_of(self.graph()@),
    {
        self.inner.page_ids()
    }
}


impl PdfDocument {
    /// Whether nothing but the fonts differs from `before`.
    pub open(crate) spec fn only_fonts_changed(&self, before: PdfDocument) -> bool {
        &&& self.inner == before.inner
        &&& self.family() == before.family()
        &&& self.weight() == before.weight()
        &&& self.style() == before.style()
        &&& self.font_size() == before.font_size()
        &&& self.text_color() == before.text_color()
        &&& self.ops() == before.ops()
        &&& self.font_tags() == before.font_tags()
        &&& self.image_tags() == before.image_tags()
        &&& self.images() == before.images()
        &&& self.embedded() == before.embedded()
        &&& self.buffers() == before.buffers()
        &&& self.counters() == before.counters()
    }

    /// Whether nothing but the selected font, size and colour differs
    /// from `before`.
    pub open(crate) spec fn only_selection_changed(&self, before: PdfDocument) -> bool {
        &&& self.inner == before.inner
        &&& self.fonts == before.fonts
        &&& self.ops() == before.ops()
        &&& self.font_tags() == before.font_tags()
        &&& self.image_tags() == before.image_tags()
        &&& self.images() == before.images()
        &&& self.embedded() == before.embedded()
        &&& self.buffers() == before.buffers()
        &&& self.counters() == before.counters()
    }

    /// After fonts were added at the end of the registry, the document is
    /// as consistent as it was.
    pub(crate) proof fn lemma_fonts_grew(self, before: PdfDocument)
        requires
            before.wf(),
            self.only_fonts_changed(before),
            self.fonts.wf(),
            before.fonts.spec_variants().len() <= self.fonts.spec_variants().len(),
            forall|i: int|
                0 <= i < before.fonts.spec_variants().len() ==> (
                #[trigger] self.fonts.spec_variants()[i]).used()
                    == before.fonts.spec_variants()[i].used(),
            before.family() matches Some(n) ==> self.fonts.has_family(n),
        ensures
            self.wf(),
    {
        assert forall|i: int, k: int|
            0 <= i < self.ops().len() && 0 <= k
                < self.ops()[i].text@.len() implies self.fonts.spec_variants()[self.ops()[i].font as int].used().contains(
            #[trigger] self.ops()[i].text@[k],
        ) by {
            assert(before.ops()[i].font < before.fonts.spec_variants().len());
            assert(before.fonts.spec_variants()[before.ops()[i].font as int].used().contains(
                before.ops()[i].text@[k],
            ));
        }
        assert forall|i: int| 0 <= i < self.font_tags().len() implies (
        #[trigger] self.font_tags()[i]).font < self.fonts.spec_variants().len() by {
            assert(before.font_tags()[i].font < before.fonts.spec_variants().len());
        }
    }

    /// Adds a single font under `name`; it can be selected like a family
    /// with a regular variant only. Fails where the name is taken or the
    /// bytes are no font.
    pub fn add_font(&mut self, name: &str, ttf_data: &[u8]) -> (r: Result<(), PdfError>)
        requires
            old(self).wf(),
        ensures
            final(self).wf(),
            final(self).only_fonts_changed(*old(self)),
            final(self).registry().spec_fallbacks() == old(self).registry().spec_fallbacks(),
            r is Ok <==> (!old(self).registry().has_family(name@) && !old(self).registry().has_variant(name@) && ttf_parse_failure(ttf_data@) is None && old(self).registry().spec_variants().len() + 4 <= usize::MAX),
            match r {
                Ok(_) => {
                    let fonts = final(self).registry();
                    let before = old(self).registry();
                    &&& fonts.spec_variants().len() == before.spec_variants().len() + 1
                    &&& fonts.spec_variants().drop_last() == before.spec_variants()
                    &&& built_from(Some(fonts.spec_variants().last()), name@, Some(ttf_data@))
                    &&& fonts.spec_families().len() == before.spec_families().len() + 1
                    &&& fonts.spec_families().drop_last() == before.spec_families()
                    &&& fonts.spec_families().last().as_tuple() == (
                        name@,
                        before.spec_variants().len() as int,
                        None::<int>,
                        None::<int>,
                        None::<int>,
                        true,
                    )
                },
                Err(e) => {
                    &&& final(self).registry().spec_variants() == old(self).registry().spec_variants()
                    &&& final(self).registry().spec_families() == old(self).registry().spec_families()
                    &&& if old(self).registry().has_family(name@) || old(self).registry().has_variant(name@) || old(self).registry().spec_variants().len()
                        + 4 > usize::MAX {
                        e matches PdfError::FontAlreadyExists(n) && n@ == name@
                    } else {
                        e is FontParseError
                    }
                },
            },
    {
        if self.fonts.find_family(name).is_some() || self.fonts.find_variant(name).is_some()
            || self.fonts.variant_count() > usize::MAX - 4 {
            return Err(PdfError::FontAlreadyExists(name.to_owned()));
        }
        let font = FontData::from_ttf(name, ttf_data)?;
        let family = FontFamily { regular: Some(font), bold: None, italic: None, bold_italic: None };
        proof {
            let members = family_members(family);
            assert(members =~= seq![font]);
            crate::font::lemma_first_index_bounds(self.fonts.variant_names(), name@, 0);
            assert forall|i: int, k: int|
                0 <= i < self.fonts.spec_variants().len() && 0 <= k
                    < members.len() implies (#[trigger] self.fonts.spec_variants()[i]).spec_name()
                != (#[trigger] members[k]).spec_name() by {
                assert(self.fonts.variant_names()[i] == self.fonts.spec_variants()[i].spec_name());
            }
            assert(self.fonts.accepts(name@, family));
        }
        let ghost before = *self;
        let r = self.fonts.register_family(name, family, true);
        proof {
            assert(self.fonts.spec_variants() =~= before.fonts.spec_variants().push(font));
            assert(self.fonts.spec_variants().drop_last() =~= before.fonts.spec_variants());
            self.lemma_family_kept(before);
            self.lemma_fonts_grew(before);
        }
        r
    }

    /// A family that was registered stays registered when a family is added.
    pub(crate) proof fn lemma_family_kept(self, before: PdfDocument)
        requires
            self.fonts.spec_families().len() == before.fonts.spec_families().len() + 1,
            self.fonts.spec_families().drop_last() == before.fonts.spec_families(),
        ensures
            forall|n: Seq<char>| before.fonts.has_family(n) ==> self.fonts.has_family(n),
    {
        assert forall|n: Seq<char>| before.fonts.has_family(n) implies self.fonts.has_family(
            n,
        ) by {
            let names = before.fonts.family_names();
            let grown = self.fonts.family_names();
            crate::font::lemma_first_index_bounds(names, n, 0);
            let i = crate::font::first_index(names, n, 0);
            assert forall|j: int| 0 <= j < names.len() implies grown[j] == names[j] by {
                assert(self.fonts.spec_families().drop_last()[j] == self.fonts.spec_families()[j]);
            }
            crate::font::lemma_first_index(grown, n, 0, i);
        }
    }
}


/// Whether the name of the variant for a weight and a style is free, where
/// a font file is given for it.
pub open spec fn name_free_if_given(
    fonts: FontRegistry,
    name: Seq<char>,
    weight: FontWeight,
    style: FontStyle,
    data: Option<Seq<u8>>,
) -> bool {
    data is Some ==> !fonts.has_variant(variant_name(name, weight, style))
}


/// The variants of a built family have fresh names exactly where the
/// names of the variants that are given are free in the registry.
pub(crate) proof fn lemma_fresh_built(
    fonts: FontRegistry,
    family: FontFamily,
    name: Seq<char>,
    regular: Option<Seq<u8>>,
    bold: Option<Seq<u8>>,
    italic: Option<Seq<u8>>,
    bold_italic: Option<Seq<u8>>,
)
    requires
        family_is_built(family, name, regular, bold, italic, bold_italic),
        regular is Some,
    ensures
        fresh_names(fonts.spec_variants(), family_members(family)) <==> (name_free_if_given(
            fonts,
            name,
            FontWeight::Regular,
            FontStyle::Normal,
            regular,
        ) && name_free_if_given(fonts, name, FontWeight::Bold, FontStyle::Normal, bold)
            && name_free_if_given(fonts, name, FontWeight::Regular, FontStyle::Italic, italic)
            && name_free_if_given(fonts, name, FontWeight::Bold, FontStyle::Italic, bold_italic)),
{
    lemma_variant_names_differ(name);
    let m = family_members(family);
    let existing = fonts.spec_variants();
    let names = fonts.variant_names();
    let n0 = variant_name(name, FontWeight::Regular, FontStyle::Normal);
    let n1 = variant_name(name, FontWeight::Bold, FontStyle::Normal);
    let n2 = variant_name(name, FontWeight::Regular, FontStyle::Italic);
    let n3 = variant_name(name, FontWeight::Bold, FontStyle::Italic);
    crate::font::lemma_first_index_bounds(names, n0, 0);
    crate::font::lemma_first_index_bounds(names, n1, 0);
    crate::font::lemma_first_index_bounds(names, n2, 0);
    crate::font::lemma_first_index_bounds(names, n3, 0);
    assert forall|i: int| 0 <= i < existing.len() implies names[i] == (
    #[trigger] existing[i]).spec_name() by {}
    let free = |n: Seq<char>| forall|i: int| 0 <= i < existing.len() ==> (#[trigger] existing[i]).spec_name() != n;
    assert forall|n: Seq<char>| n == n0 || n == n1 || n == n2 || n == n3 implies (free(n) <==> !fonts.has_variant(n)) by {
        let i = crate::font::first_index(names, n, 0);
        if i < names.len() {
            assert(existing[i].spec_name() == names[i]);
        } else {
            assert forall|j: int| 0 <= j < existing.len() implies (#[trigger] existing[j]).spec_name() != n by {
                assert(names[j] != n);
            }
        }
    }
    if fresh_names(existing, m) {
        if family.bold is Some && family.italic is Some && family.bold_italic is Some {
            assert(m =~= seq![family.regular->Some_0, family.bold->Some_0, family.italic->Some_0, family.bold_italic->Some_0]);
            assert(m[0] == family.regular->Some_0);
            assert(m[1] == family.bold->Some_0);
            assert(m[2] == family.italic->Some_0);
            assert(m[3] == family.bold_italic->Some_0);
        }
        if family.bold is Some && family.italic is Some && family.bold_italic is None {
            assert(m =~= seq![family.regular->Some_0, family.bold->Some_0, family.italic->Some_0]);
            assert(m[0] == family.regular->Some_0);
            assert(m[1] == family.bold->Some_0);
            assert(m[2] == family.italic->Some_0);
        }
        if family.bold is Some && family.italic is None && family.bold_italic is Some {
            assert(m =~= seq![family.regular->Some_0, family.bold->Some_0, family.bold_italic->Some_0]);
            assert(m[0] == family.regular->Some_0);
            assert(m[1] == family.bold->Some_0);
            assert(m[2] == family.bold_italic->Some_0);
        }
        if family.bold is Some && family.italic is None && family.bold_italic is None {
            assert(m =~= seq![family.regular->Some_0, family.bold->Some_0]);
            assert(m[0] == family.regular->Some_0);
            assert(m[1] == family.bold->Some_0);
        }
        if family.bold is None && family.italic is Some && family.bold_italic is Some {
            assert(m =~= seq![family.regular->Some_0, family.italic->Some_0, family.bold_italic->Some_0]);
            assert(m[0] == family.regular->Some_0);
            assert(m[1] == family.italic->Some_0);
            assert(m[2] == family.bold_italic->Some_0);
        }
        if family.bold is None && family.italic is Some && family.bold_italic is None {
            assert(m =~= seq![family.regular->Some_0, family.italic->Some_0]);
            assert(m[0] == family.regular->Some_0);
            assert(m[1] == family.italic->Some_0);
        }
        if family.bold is None && family.italic is None && family.bold_italic is Some {
            assert(m =~= seq![family.regular->Some_0, family.bold_italic->Some_0]);
            assert(m[0] == family.regular->Some_0);
            assert(m[1] == family.bold_italic->Some_0);
        }
        if family.bold is None && family.italic is None && family.bold_italic is None {
            assert(m =~= seq![family.regular->Some_0]);
            assert(m[0] == family.regular->Some_0);
        }
    }
    if name_free_if_given(fonts, name, FontWeight::Regular, FontStyle::Normal, regular)
        && name_free_if_given(fonts, name, FontWeight::Bold, FontStyle::Normal, bold)
        && name_free_if_given(fonts, name, FontWeight::Regular, FontStyle::Italic, italic)
        && name_free_if_given(fonts, name, FontWeight::Bold, FontStyle::Italic, bold_italic) {
        if family.bold is Some && family.italic is Some && family.bold_italic is Some {
            assert(m =~= seq![family.regular->Some_0, family.bold->Some_0, family.italic->Some_0, family.bold_italic->Some_0]);
            assert(m[0] == family.regular->Some_0);
            assert(m[1] == family.bold->Some_0);
            assert(m[2] == family.italic->Some_0);
            assert(m[3] == family.bold_italic->Some_0);
        }
        if family.bold is Some && family.italic is Some && family.bold_italic is None {
            assert(m =~= seq![family.regular->Some_0, family.bold->Some_0, family.italic->Some_0]);
            assert(m[0] == family.regular->Some_0);
            assert(m[1] == family.bold->Some_0);
            assert(m[2] == family.italic->Some_0);
        }
        if family.bold is Some && family.italic is None && family.bold_italic is Some {
            assert(m =~= seq![family.regular->Some_0, family.bold->Some_0, family.bold_italic->Some_0]);
            assert(m[0] == family.regular->Some_0);
            assert(m[1] == family.bold->Some_0);
            assert(m[2] == family.bold_italic->Some_0);
        }
        if family.bold is Some && family.italic is None && family.bold_italic is None {
            assert(m =~= seq![family.regular->Some_0, family.bold->Some_0]);
            assert(m[0] == family.regular->Some_0);
            assert(m[1] == family.bold->Some_0);
        }
        if family.bold is None && family.italic is Some && family.bold_italic is Some {
            assert(m =~= seq![family.regular->Some_0, family.italic->Some_0, family.bold_italic->Some_0]);
            assert(m[0] == family.regular->Some_0);
            assert(m[1] == family.italic->Some_0);
            assert(m[2] == family.bold_italic->Some_0);
        }
        if family.bold is None && family.italic is Some && family.bold_italic is None {
            assert(m =~= seq![family.regular->Some_0, family.italic->Some_0]);
            assert(m[0] == family.regular->Some_0);
            assert(m[1] == family.italic->Some_0);
        }
        if family.bold is None && family.italic is None && family.bold_italic is Some {
            assert(m =~= seq![family.regular->Some_0, family.bold_italic->Some_0]);
            assert(m[0] == family.regular->Some_0);
            assert(m[1] == family.bold_italic->Some_0);
        }
        if family.bold is None && family.italic is None && family.bold_italic is None {
            assert(m =~= seq![family.regular->Some_0]);
            assert(m[0] == family.regular->Some_0);
        }
    }
}

impl PdfDocument {
    /// Whether a family can be registered under `name` from the font
    /// files of a builder: the name is free, the files make a family, and
    /// the names of the variants are free.
    pub open(crate) spec fn can_register(&self, name: Seq<char>, builder: FontFamilyBuilder) -> bool {
        &&& !self.fonts.has_family(name)
        &&& files_make_family(
            builder.spec_regular(),
            builder.spec_bold(),
            builder.spec_italic(),
            builder.spec_bold_italic(),
        )
        &&& name_free_if_given(
            self.fonts,
            name,
            FontWeight::Regular,
            FontStyle::Normal,
            builder.spec_regular(),
        )
        &&& name_free_if_given(
            self.fonts,
            name,
            FontWeight::Bold,
            FontStyle::Normal,
            builder.spec_bold(),
        )
        &&& name_free_if_given(
            self.fonts,
            name,
            FontWeight::Regular,
            FontStyle::Italic,
            builder.spec_italic(),
        )
        &&& name_free_if_given(
            self.fonts,
            name,
            FontWeight::Bold,
            FontStyle::Italic,
            builder.spec_bold_italic(),
        )
        &&& self.fonts.spec_variants().len() + 4 <= usize::MAX
    }

    /// Registers a family with the variants whose font files the builder
    /// holds. Fails where the name of the family or of a variant is taken,
    /// where the regular variant is missing, and where a file is no font.
    pub fn register_font_family(&mut self, name: &str, builder: FontFamilyBuilder) -> (r: Result<
        (),
        PdfError,
    >)
        requires
            old(self).wf(),
        ensures
            final(self).wf(),
            final(self).only_fonts_changed(*old(self)),
            final(self).registry().spec_fallbacks() == old(self).registry().spec_fallbacks(),
            r is Ok <==> old(self).can_register(name@, builder),
            match r {
                Ok(_) => exists|family: FontFamily|
                    {
                        &&& #[trigger] family_is_built(
                            family,
                            name@,
                            builder.spec_regular(),
                            builder.spec_bold(),
                            builder.spec_italic(),
                            builder.spec_bold_italic(),
                        )
                        &&& final(self).registry().spec_variants() == old(self).registry().spec_variants() + family_members(family)
                        &&& final(self).registry().spec_families().len() == old(self).registry().spec_families().len()
                            + 1
                        &&& final(self).registry().spec_families().drop_last() == old(self).registry().spec_families()
                        &&& final(self).registry().spec_families().last().as_tuple()
                            == family_slots(
                            family,
                            name@,
                            old(self).registry().spec_variants().len() as int,
                            false,
                        )
                    },
                Err(e) => {
                    &&& final(self).registry().spec_variants() == old(self).registry().spec_variants()
                    &&& final(self).registry().spec_families() == old(self).registry().spec_families()
                    &&& if !old(self).registry().has_family(name@) && !files_make_family(
                        builder.spec_regular(),
                        builder.spec_bold(),
                        builder.spec_italic(),
                        builder.spec_bold_italic(),
                    ) {
                        e is FontParseError
                    } else {
                        e is FontAlreadyExists
                    }
                    &&& old(self).registry().has_family(name@) ==> (e matches PdfError::FontAlreadyExists(
                        n,
                    ) && n@ == name@)
                },
            },
    {
        if self.fonts.find_family(name).is_some() {
            return Err(PdfError::FontAlreadyExists(name.to_owned()));
        }
        let family = builder.build(name)?;
        let ghost before = *self;
        proof {
            lemma_variant_names_differ(name@);
        }
        proof {
            lemma_fresh_built(
                self.fonts,
                family,
                name@,
                builder.spec_regular(),
                builder.spec_bold(),
                builder.spec_italic(),
                builder.spec_bold_italic(),
            );
        }
        let r = self.fonts.register_family(name, family, false);
        proof {
            if r is Ok {
                assert forall|i: int|
                    0 <= i < before.fonts.spec_variants().len() implies (
                #[trigger] self.fonts.spec_variants()[i]).used()
                    == before.fonts.spec_variants()[i].used() by {}
                self.lemma_family_kept(before);
            }
            self.lemma_fonts_grew(before);
        }
        r
    }
}


/// The error for an operation that needs a selected font where none is:
/// no font is found, and the name it gives is the text `No font family set`.
pub fn no_font_selected() -> (e: PdfError)
    ensures
        e matches PdfError::FontNotFound(name) && name@ == "No font family set"@,
{
    PdfError::FontNotFound("No font family set".to_owned())
}

impl PdfDocument {
    /// Selects a family and a font size. Weight and style stay as they are.
    pub fn set_font(&mut self, family: &str, size: Fixed) -> (r: Result<(), PdfError>)
        requires
            old(self).wf(),
        ensures
            final(self).wf(),
            final(self).only_selection_changed(*old(self)),
            final(self).weight() == old(self).weight(),
            final(self).style() == old(self).style(),
            final(self).text_color() == old(self).text_color(),
            match r {
                Ok(_) => old(self).registry().has_family(family@) && final(self).family() == Some(
                    family@,
                ) && final(self).font_size() == size,
                Err(e) => {
                    &&& !old(self).registry().has_family(family@)
                    &&& e matches PdfError::FontNotFound(n)
                    &&& n@ == family@
                    &&& final(self).family() == old(self).family()
                    &&& final(self).font_size() == old(self).font_size()
                },
            },
    {
        if self.fonts.find_family(family).is_none() {
            return Err(PdfError::FontNotFound(family.to_owned()));
        }
        self.current_family = Some(family.to_owned());
        self.current_font_size = size;
        proof {
            self.lemma_selection_changed(*old(self));
        }
        Ok(())
    }

    /// After a change of the selection to a family that exists, the
    /// document is as consistent as it was.
    pub(crate) proof fn lemma_selection_changed(self, before: PdfDocument)
        requires
            before.wf(),
            self.only_selection_changed(before),
            self.family() matches Some(n) ==> self.fonts.has_family(n),
        ensures
            self.wf(),
    {
        assert forall|i: int, k: int|
            0 <= i < self.ops().len() && 0 <= k
                < self.ops()[i].text@.len() implies self.fonts.spec_variants()[self.ops()[i].font as int].used().contains(
            #[trigger] self.ops()[i].text@[k],
        ) by {
            assert(before.fonts.spec_variants()[before.ops()[i].font as int].used().contains(
                before.ops()[i].text@[k],
            ));
        }
        assert forall|i: int| 0 <= i < self.font_tags().len() implies (
        #[trigger] self.font_tags()[i]).font < self.fonts.spec_variants().len() by {
            assert(before.font_tags()[i].font < before.fonts.spec_variants().len());
        }
    }

    /// Sets the font size. A family has to be selected.
    pub fn set_font_size(&mut self, size: Fixed) -> (r: Result<(), PdfError>)
        ensures
            final(self).only_selection_changed(*old(self)),
            final(self).family() == old(self).family(),
            final(self).weight() == old(self).weight(),
            final(self).style() == old(self).style(),
            final(self).text_color() == old(self).text_color(),
            old(self).wf() ==> final(self).wf(),
            match r {
                Ok(_) => old(self).family() is Some && final(self).font_size() == size,
                Err(e) => old(self).family() is None && e is FontNotFound && final(self).font_size()
                    == old(self).font_size(),
            },
    {
        if self.current_family.is_none() {
            return Err(no_font_selected());
        }
        self.current_font_size = size;
        proof {
            if old(self).wf() {
                self.lemma_selection_changed(*old(self));
            }
        }
        Ok(())
    }

    /// Sets the font weight. A family has to be selected.
    pub fn set_font_weight(&mut self, weight: FontWeight) -> (r: Result<(), PdfError>)
        ensures
            final(self).only_selection_changed(*old(self)),
            final(self).family() == old(self).family(),
            final(self).font_size() == old(self).font_size(),
            final(self).style() == old(self).style(),
            final(self).text_color() == old(self).text_color(),
            old(self).wf() ==> final(self).wf(),
            match r {
                Ok(_) => old(self).family() is Some && final(self).weight() == weight,
                Err(e) => old(self).family() is None && e is FontNotFound && final(self).weight()
                    == old(self).weight(),
            },
    {
        if self.current_family.is_none() {
            return Err(no_font_selected());
        }
        self.current_weight = weight;
        proof {
            if old(self).wf() {
                self.lemma_selection_changed(*old(self));
            }
        }
        Ok(())
    }

    /// Sets the font style. A family has to be selected.
    pub fn set_font_style(&mut self, style: FontStyle) -> (r: Result<(), PdfError>)
        ensures
            final(self).only_selection_changed(*old(self)),
            final(self).family() == old(self).family(),
            final(self).font_size() == old(self).font_size(),
            final(self).weight() == old(self).weight(),
            final(self).text_color() == old(self).text_color(),
            old(self).wf() ==> final(self).wf(),
            match r {
                Ok(_) => old(self).family() is Some && final(self).style() == style,
                Err(e) => old(self).family() is None && e is FontNotFound && final(self).style()
                    == old(self).style(),
            },
    {
        if self.current_family.is_none() {
            return Err(no_font_selected());
        }
        self.current_style = style;
        proof {
            if old(self).wf() {
                self.lemma_selection_changed(*old(self));
            }
        }
        Ok(())
    }

    /// Sets the colour of the text.
    pub fn set_text_color(&mut self, color: Color)
        ensures
            final(self).only_selection_changed(*old(self)),
            final(self).family() == old(self).family(),
            final(self).font_size() == old(self).font_size(),
            final(self).weight() == old(self).weight(),
            final(self).style() == old(self).style(),
            final(self).text_color() == color,
            old(self).wf() ==> final(self).wf(),
    {
        self.current_text_color = color;
        proof {
            if old(self).wf() {
                self.lemma_selection_changed(*old(self));
            }
        }
    }

    /// Sets the families that are asked, in this order, for the glyphs
    /// that a family lacks. All of them have to be registered.
    pub fn set_font_fallback(&mut self, family: &str, fallbacks: &Vec<String>) -> (r: Result<
        (),
        PdfError,
    >)
        requires
            old(self).wf(),
        ensures
            final(self).wf(),
            final(self).only_fonts_changed(*old(self)),
            final(self).registry().spec_variants() == old(self).registry().spec_variants(),
            final(self).registry().spec_families() == old(self).registry().spec_families(),
            match r {
                Ok(_) => {
                    &&& old(self).registry().has_family(family@)
                    &&& old(self).registry().first_unknown(chain_view(fallbacks@), 0)
                        == fallbacks@.len()
                    &&& final(self).registry().spec_fallbacks() == crate::assoc::assign(
                        old(self).registry().spec_fallbacks(),
                        family@,
                        chain_view(fallbacks@),
                    )
                },
                Err(e) => {
                    &&& final(self).registry().spec_fallbacks() == old(self).registry().spec_fallbacks()
                    &&& e matches PdfError::FontNotFound(n)
                    &&& if !old(self).registry().has_family(family@) {
                        n@ == family@
                    } else {
                        let k = old(self).registry().first_unknown(chain_view(fallbacks@), 0);
                        k < fallbacks@.len() && n@ == fallbacks@[k]@
                    }
                },
            },
    {
        let ghost before = *self;
        let r = self.fonts.set_fallback(family, fallbacks);
        proof {
            self.lemma_fonts_kept(before);
        }
        r
    }

    /// Adds one single font to the end of the fallback chain of another.
    pub fn add_font_fallback(&mut self, primary: &str, fallback: &str) -> (r: Result<(), PdfError>)
        requires
            old(self).wf(),
        ensures
            final(self).wf(),
            final(self).only_fonts_changed(*old(self)),
            final(self).registry().spec_variants() == old(self).registry().spec_variants(),
            final(self).registry().spec_families() == old(self).registry().spec_families(),
            match r {
                Ok(_) => {
                    &&& old(self).registry().is_single(primary@)
                    &&& old(self).registry().is_single(fallback@)
                    &&& final(self).registry().spec_fallbacks() == crate::assoc::assign(
                        old(self).registry().spec_fallbacks(),
                        primary@,
                        (match old(self).registry().chain_of(primary@) {
                            Some(c) => c,
                            None => Seq::empty(),
                        }).push(fallback@),
                    )
                },
                Err(e) => {
                    &&& final(self).registry().spec_fallbacks() == old(self).registry().spec_fallbacks()
                    &&& e matches PdfError::FontNotFound(n)
                    &&& if !old(self).registry().is_single(primary@) {
                        n@ == primary@
                    } else {
                        !old(self).registry().is_single(fallback@) && n@ == fallback@
                    }
                },
            },
    {
        let ghost before = *self;
        let r = self.fonts.add_fallback(primary, fallback);
        proof {
            self.lemma_fonts_kept(before);
        }
        r
    }

    /// Selects a single font and a size, and replaces its fallback chain
    /// by the given single fonts. Stops at the first that is not registered.
    pub fn set_font_with_fallback(&mut self, name: &str, size: Fixed, fallbacks: &Vec<String>) -> (r:
        Result<(), PdfError>)
        requires
            old(self).wf(),
        ensures
            final(self).wf(),
            final(self).graph() == old(self).graph(),
            final(self).ops() == old(self).ops(),
            final(self).registry().spec_variants() == old(self).registry().spec_variants(),
            final(self).registry().spec_families() == old(self).registry().spec_families(),
            r is Ok <==> (old(self).registry().has_family(name@) && (fallbacks@.len() == 0 || (old(self).registry().is_single(name@) && forall|k: int|
                0 <= k < fallbacks@.len() ==> old(self).registry().is_single(
                    #[trigger] fallbacks@[k]@,
                )))),
            match r {
                Ok(_) => final(self).family() == Some(name@) && final(self).font_size() == size
                    && final(self).registry().chain_of(name@) == (if fallbacks@.len() == 0 {
                    None
                } else {
                    Some(chain_view(fallbacks@))
                }),
                Err(e) => e is FontNotFound,
            },
    {
        self.set_font(name, size)?;
        let ghost selected = *self;
        self.fonts.clear_fallback(name);
        proof {
            self.lemma_fonts_kept(selected);
        }
        if fallbacks.len() > 0 && !self.fonts.single(name) {
            return Err(PdfError::FontNotFound(name.to_owned()));
        }
        let mut k: usize = 0;
        while k < fallbacks.len()
            invariant
                k <= fallbacks.len(),
                self.wf(),
                self.inner == old(self).inner,
                self.ops() == old(self).ops(),
                self.fonts.spec_variants() == old(self).fonts.spec_variants(),
                self.fonts.spec_families() == old(self).fonts.spec_families(),
                self.family() == Some(name@),
                self.font_size() == size,
                fallbacks@.len() > 0 ==> self.fonts.is_single(name@),
                forall|j: int| 0 <= j < k ==> self.fonts.is_single(#[trigger] fallbacks@[j]@),
                self.fonts.chain_of(name@) == (if k == 0 {
                    None
                } else {
                    Some(chain_view(fallbacks@).take(k as int))
                }),
            decreases fallbacks.len() - k,
        {
            let ghost before = *self;
            self.add_font_fallback(name, fallbacks[k].as_str())?;
            proof {
                let so_far: Seq<Seq<char>> = match before.fonts.chain_of(name@) {
                    Some(c) => c,
                    None => Seq::empty(),
                };
                crate::assoc::lemma_assign_lookup(
                    before.fonts.spec_fallbacks(),
                    name@,
                    so_far.push(fallbacks@[k as int]@),
                    name@,
                );
                assert(chain_view(fallbacks@)[k as int] == fallbacks@[k as int]@);
                assert(so_far.push(fallbacks@[k as int]@) =~= chain_view(fallbacks@).take(
                    k + 1,
                ));
            }
            k += 1;
        }
        assert(chain_view(fallbacks@).take(fallbacks@.len() as int) =~= chain_view(fallbacks@));
        Ok(())
    }

    /// After a change of the fallback chains only, the document is as
    /// consistent as it was.
    pub(crate) proof fn lemma_fonts_kept(self, before: PdfDocument)
        requires
            before.wf(),
            self.only_fonts_changed(before),
            self.fonts.wf(),
            self.fonts.spec_variants() == before.fonts.spec_variants(),
            self.fonts.spec_families() == before.fonts.spec_families(),
        ensures
            self.wf(),
    {
        assert(self.fonts.family_names() =~= before.fonts.family_names());
        self.lemma_fonts_grew(before);
    }
}


/// The resource name with the given prefix and number, such as `F3`.
pub fn resource_name(prefix: &str, number: u32) -> (r: String)
    ensures
        r@ == prefix@ + decimal_chars(number as nat),
{
    let mut name = String::from_str(prefix);
    push_decimal(&mut name, number as usize);
    name
}

/// The place among `tags` of the first for the font on the page; their
/// number where there is none.
pub open spec fn font_tag_index(tags: Seq<FontTag>, page: usize, font: usize, from: int) -> int
    decreases tags.len() - from,
{
    if from < 0 || from >= tags.len() {
        tags.len() as int
    } else if tags[from].page == page && tags[from].font == font {
        from
    } else {
        font_tag_index(tags, page, font, from + 1)
    }
}

/// `font_tag_index` is the first place that holds the font on the page.
pub proof fn lemma_font_tag_index(tags: Seq<FontTag>, page: usize, font: usize, from: int, i: int)
    requires
        0 <= from <= i <= tags.len(),
        i < tags.len() ==> tags[i].page == page && tags[i].font == font,
        forall|j: int| from <= j < i ==> !((#[trigger] tags[j]).page == page && tags[j].font == font),
    ensures
        font_tag_index(tags, page, font, from) == i,
    decreases tags.len() - from,
{
    if from < i {
        lemma_font_tag_index(tags, page, font, from + 1, i);
    }
}

pub proof fn lemma_font_tag_index_bounds(tags: Seq<FontTag>, page: usize, font: usize, from: int)
    requires
        0 <= from <= tags.len(),
    ensures
        from <= font_tag_index(tags, page, font, from) <= tags.len(),
        font_tag_index(tags, page, font, from) < tags.len() ==> tags[font_tag_index(
            tags,
            page,
            font,
            from,
        )].page == page && tags[font_tag_index(tags, page, font, from)].font == font,
        forall|j: int|
            from <= j < font_tag_index(tags, page, font, from) ==> !((#[trigger] tags[j]).page
                == page && tags[j].font == font),
    decreases tags.len() - from,
{
    if from < tags.len() && !(tags[from].page == page && tags[from].font == font) {
        lemma_font_tag_index_bounds(tags, page, font, from + 1);
    }
}

/// The width of a run of text in the font it is set in.
pub open spec fn run_width(variants: Seq<FontData>, run: (Seq<char>, int), size: Fixed) -> i64 {
    variants[run.1].spec_width_points(run.0, size)
}

/// Where the first `n` runs end when the first starts at `start`.
pub open spec fn runs_end(
    variants: Seq<FontData>,
    runs: Seq<(Seq<char>, int)>,
    n: int,
    start: i64,
    size: Fixed,
) -> i64
    decreases n,
{
    if n <= 0 {
        start
    } else {
        clamp_i64(
            runs_end(variants, runs, n - 1, start, size) + run_width(variants, runs[n - 1], size),
        )
    }
}

/// A run of text with its font and the place where it starts.
pub struct PlannedRun {
    pub text: String,
    pub font: usize,
    pub x: Fixed,
}

impl PdfDocument {
    /// The place in the registry of the variant that is selected: the one
    /// that serves the selected weight and style in the selected family.
    pub open(crate) spec fn selected_variant(&self) -> Option<int> {
        match self.family() {
            Some(n) => {
                let f = crate::registry::name_index(self.fonts.family_names(), n);
                if f < self.fonts.spec_families().len() {
                    Some(
                        self.fonts.spec_families()[f].spec_variant(self.weight(), self.style()) as int,
                    )
                } else {
                    None
                }
            },
            None => None,
        }
    }

    /// The variant that is selected is one of the registry.
    pub(crate) proof fn lemma_selected_in_range(self)
        requires
            self.wf(),
            self.family() is Some,
        ensures
            self.selected_variant() matches Some(v) && 0 <= v < self.fonts.spec_variants().len(),
    {
        let f = crate::registry::name_index(self.fonts.family_names(), self.family()->Some_0);
        crate::font::lemma_first_index_bounds(self.fonts.family_names(), self.family()->Some_0, 0);
        assert(self.fonts.has_family(self.family()->Some_0));
        assert(self.fonts.spec_families()[f].within(self.fonts.spec_variants().len() as int));
    }

    /// The place in the registry of the variant that is selected.
    pub fn current_variant(&self) -> (r: Result<usize, PdfError>)
        requires
            self.wf(),
        ensures
            match r {
                Ok(v) => self.selected_variant() == Some(v as int) && v
                    < self.registry().spec_variants().len(),
                Err(e) => self.family() is None && e is FontNotFound,
            },
    {
        let family = match &self.current_family {
            Some(n) => n,
            None => {
                return Err(no_font_selected());
            },
        };
        match self.fonts.find_family(family.as_str()) {
            Some(f) => {
                let v = self.fonts.family(f).variant(self.current_weight, self.current_style);
                assert(self.fonts.spec_families()[f as int].within(
                    self.fonts.spec_variants().len() as int,
                ));
                Ok(v)
            },
            None => Err(no_font_selected()),
        }
    }

    /// The name of the variant that is selected.
    pub fn get_current_font_name(&self) -> (r: Result<String, PdfError>)
        requires
            self.wf(),
        ensures
            match r {
                Ok(n) => self.selected_variant() matches Some(v) && n@
                    == self.registry().spec_variants()[v].spec_name(),
                Err(e) => self.family() is None && e is FontNotFound,
            },
    {
        let v = self.current_variant()?;
        Ok(self.fonts.variant(v).name().clone())
    }

    /// The width of `text` in points, set in the selected font at the
    /// selected size.
    pub fn get_text_width(&self, text: &str) -> (r: Result<Fixed, PdfError>)
        requires
            self.wf(),
        ensures
            match r {
                Ok(w) => self.selected_variant() matches Some(v) && w.micros
                    == self.registry().spec_variants()[v].spec_width_points(
                    text@,
                    self.font_size(),
                ),
                Err(e) => self.family() is None && e is FontNotFound,
            },
    {
        let v = self.current_variant()?;
        Ok(self.fonts.variant(v).text_width_points(text, self.current_font_size))
    }

    fn font_tag_position(&self, page: usize, font: usize) -> (i: usize)
        ensures
            i == font_tag_index(self.font_tags(), page, font, 0),
            i <= self.font_tags().len(),
            i < self.font_tags().len() ==> self.font_tags()[i as int].page == page
                && self.font_tags()[i as int].font == font,
    {
        let mut i: usize = 0;
        while i < self.page_font_resources.len()
            invariant
                i <= self.page_font_resources.len(),
                font_tag_index(self.font_tags(), page, font, 0) == font_tag_index(
                    self.font_tags(),
                    page,
                    font,
                    i as int,
                ),
            decreases self.page_font_resources.len() - i,
        {
            if self.page_font_resources[i].page == page && self.page_font_resources[i].font
                == font {
                return i;
            }
            i += 1;
        }
        i
    }
}


impl PdfDocument {
    /// Whether nothing but the resource names of fonts and their counter
    /// differs from `before`.
    pub open(crate) spec fn only_font_tags_changed(&self, before: PdfDocument) -> bool {
        &&& self.inner == before.inner
        &&& self.fonts == before.fonts
        &&& self.family() == before.family()
        &&& self.weight() == before.weight()
        &&& self.style() == before.style()
        &&& self.font_size() == before.font_size()
        &&& self.text_color() == before.text_color()
        &&& self.ops() == before.ops()
        &&& self.image_tags() == before.image_tags()
        &&& self.images() == before.images()
        &&& self.embedded() == before.embedded()
        &&& self.buffers() == before.buffers()
        &&& self.counters().1 == before.counters().1
    }

    /// The number of the resource name that the font has on the page, a
    /// new one where it has none yet.
    pub fn font_ref(&mut self, font: usize, page: usize) -> (r: Result<u32, PdfError>)
        requires
            old(self).wf(),
            font < old(self).registry().spec_variants().len(),
        ensures
            final(self).wf(),
            final(self).only_font_tags_changed(*old(self)),
            r matches Ok(n) ==> {
                let k = font_tag_index(final(self).font_tags(), page, font, 0);
                k < final(self).font_tags().len() && final(self).font_tags()[k].number == n
            },
            ({
                let tags = old(self).font_tags();
                let i = font_tag_index(tags, page, font, 0);
                match r {
                    Ok(n) => if i < tags.len() {
                        n == tags[i].number && final(self).font_tags() == tags && final(self).counters() == old(self).counters()
                    } else {
                        &&& old(self).counters().0 < u32::MAX
                        &&& n == old(self).counters().0
                        &&& final(self).font_tags() == tags.push(FontTag { page, font, number: n })
                        &&& final(self).counters().0 == n + 1
                    },
                    Err(e) => i == tags.len() && old(self).counters().0 == u32::MAX && final(self).font_tags() == tags && final(self).counters() == old(self).counters()
                        && e is LopdfError,
                }
            }),
    {
        let i = self.font_tag_position(page, font);
        if i < self.page_font_resources.len() {
            return Ok(self.page_font_resources[i].number);
        }
        if self.next_font_resource == u32::MAX {
            return Err(PdfError::LopdfError("resource names are used up".to_owned()));
        }
        let number = self.next_font_resource;
        self.page_font_resources.push(FontTag { page, font, number });
        self.next_font_resource = number + 1;
        proof {
            let before = *old(self);
            lemma_font_tag_index_bounds(before.font_tags(), page, font, 0);
            assert forall|j: int| 0 <= j < before.font_tags().len() implies !((
            #[trigger] self.font_tags()[j]).page == page && self.font_tags()[j].font == font) by {
                assert(self.font_tags()[j] == before.font_tags()[j]);
            }
            lemma_font_tag_index(
                self.font_tags(),
                page,
                font,
                0,
                before.font_tags().len() as int,
            );
            assert forall|i: int, k: int|
                0 <= i < self.ops().len() && 0 <= k
                    < self.ops()[i].text@.len() implies self.fonts.spec_variants()[self.ops()[i].font as int].used().contains(
                #[trigger] self.ops()[i].text@[k],
            ) by {
                assert(before.fonts.spec_variants()[before.ops()[i].font as int].used().contains(
                    before.ops()[i].text@[k],
                ));
            }
            assert forall|i: int| 0 <= i < self.font_tags().len() implies (
            #[trigger] self.font_tags()[i]).number < self.next_font_resource && self.font_tags()[i].font
                < self.fonts.spec_variants().len() by {
                if i < before.font_tags().len() {
                    assert(before.font_tags()[i].number < before.next_font_resource);
                }
            }
            assert forall|i: int, j: int|
                0 <= i < j < self.font_tags().len() && (#[trigger] self.font_tags()[i]).page == (
                #[trigger] self.font_tags()[j]).page implies self.font_tags()[i].number
                != self.font_tags()[j].number && self.font_tags()[i].font
                != self.font_tags()[j].font by {
                if j < before.font_tags().len() {
                    assert(before.font_tags()[i].page == before.font_tags()[j].page);
                } else {
                    assert(before.font_tags()[i].number < before.next_font_resource);
                    assert(self.font_tags()[i] == before.font_tags()[i]);
                }
            }
            assert forall|i: int| 0 <= i < self.image_tags().len() implies (
            #[trigger] self.image_tags()[i]).number < self.next_image_resource by {
                assert(before.image_tags()[i].number < before.next_image_resource);
            }
        }
        Ok(number)
    }

    /// The resource name, such as `F1`, under which the font is known on
    /// the page; a new name is given where the font has none there yet.
    /// The names of fonts on other pages stay as they are.
    pub fn get_or_create_font_ref(&mut self, font_name: &str, page: usize) -> (r: Result<
        String,
        PdfError,
    >)
        requires
            old(self).wf(),
        ensures
            final(self).wf(),
            final(self).only_font_tags_changed(*old(self)),
            forall|i: int|
                0 <= i < old(self).font_tags().len() ==> final(self).font_tags()[i] == old(self).font_tags()[i],
            forall|i: int|
                old(self).font_tags().len() <= i < final(self).font_tags().len() ==> final(self).font_tags()[i].page == page,
            match r {
                Ok(name) => {
                    let v = crate::registry::name_index(
                        old(self).registry().variant_names(),
                        font_name@,
                    );
                    let k = font_tag_index(final(self).font_tags(), page, v as usize, 0);
                    let tags = old(self).font_tags();
                    let i = font_tag_index(tags, page, v as usize, 0);
                    &&& old(self).registry().has_variant(font_name@)
                    &&& k < final(self).font_tags().len()
                    &&& name@ == "F"@ + decimal_chars(final(self).font_tags()[k].number as nat)
                    &&& if i < tags.len() {
                        &&& name@ == "F"@ + decimal_chars(tags[i].number as nat)
                        &&& final(self).font_tags() == tags
                        &&& final(self).counters() == old(self).counters()
                    } else {
                        &&& old(self).counters().0 < u32::MAX
                        &&& name@ == "F"@ + decimal_chars(old(self).counters().0 as nat)
                        &&& final(self).font_tags() == tags.push(
                            FontTag { page, font: v as usize, number: old(self).counters().0 },
                        )
                        &&& final(self).counters().0 == old(self).counters().0 + 1
                    }
                },
                Err(e) => final(self).font_tags() == old(self).font_tags() && final(self).counters()
                    == old(self).counters() && (if old(self).registry().has_variant(font_name@) {
                    &&& e is LopdfError
                    &&& old(self).counters().0 == u32::MAX
                    &&& font_tag_index(
                        old(self).font_tags(),
                        page,
                        crate::registry::name_index(
                            old(self).registry().variant_names(),
                            font_name@,
                        ) as usize,
                        0,
                    ) == old(self).font_tags().len()
                } else {
                    e matches PdfError::FontNotFound(n) && n@ == font_name@
                }),
            },
    {
        let font = match self.fonts.find_variant(font_name) {
            Some(v) => v,
            None => {
                return Err(PdfError::FontNotFound(font_name.to_owned()));
            },
        };
        let number = self.font_ref(font, page)?;
        Ok(resource_name("F", number))
    }
}


/// What `insert_text` is going to buffer: the runs with their places, and
/// the baseline from the bottom of the page.
pub struct TextPlan {
    pub runs: Vec<PlannedRun>,
    pub y: Fixed,
}

impl PdfDocument {
    /// The runs that `text` falls into with the selected font: each
    /// character goes to the selected variant where it has a glyph for it,
    /// else to the first family of the fallback chain that has one.
    pub open(crate) spec fn text_runs(&self, text: Seq<char>) -> Seq<(Seq<char>, int)> {
        segments_of(
            text,
            self.fonts.font_map(
                self.selected_variant()->Some_0,
                self.fonts.chain_of(self.family()->Some_0),
                self.weight(),
                self.style(),
            ),
        )
    }

    /// Where the runs of `text` start when the text is aligned at `x`.
    pub open(crate) spec fn text_start(&self, text: Seq<char>, x: Fixed, align: Align) -> i64 {
        let runs = self.text_runs(text);
        aligned_start(
            x.micros,
            runs_end(self.fonts.spec_variants(), runs, runs.len() as int, 0, self.font_size()),
            align,
        )
    }

    /// Whether `plan` is what is buffered for `text` at `x`, `y` on a page
    /// of height `height`.
    pub open(crate) spec fn is_plan(
        &self,
        plan: TextPlan,
        text: Seq<char>,
        x: Fixed,
        y: Fixed,
        align: Align,
        height: i64,
    ) -> bool {
        let runs = self.text_runs(text);
        let start = self.text_start(text, x, align);
        &&& plan.y.micros == clamp_i64(height - y.micros)
        &&& plan.runs@.len() == runs.len()
        &&& forall|i: int|
            0 <= i < runs.len() ==> {
                &&& (#[trigger] plan.runs@[i]).text@ == runs[i].0
                &&& plan.runs@[i].font == runs[i].1
                &&& plan.runs@[i].font < self.fonts.spec_variants().len()
                &&& plan.runs@[i].x.micros == runs_end(
                    self.fonts.spec_variants(),
                    runs,
                    i,
                    start,
                    self.font_size(),
                )
            }
    }

    /// Splits `text` into runs by the font that sets them: each character
    /// goes to the selected variant of the selected family where that has
    /// a glyph for it, else to the first family of the fallback chain
    /// that has one, else to the selected variant.
    pub fn segment_text_by_font(&self, text: &str) -> (r: Result<Vec<Segment>, PdfError>)
        requires
            self.wf(),
        ensures
            match r {
                Ok(segments) => {
                    &&& self.family() is Some
                    &&& segments_view(segments@) == self.text_runs(text@)
                    &&& forall|j: int|
                        0 <= j < segments@.len() ==> (#[trigger] segments@[j]).font
                            < self.registry().spec_variants().len()
                },
                Err(e) => self.family() is None && e is FontNotFound,
            },
    {
        let primary = self.current_variant()?;
        let family = match &self.current_family {
            Some(n) => n,
            None => {
                return Err(no_font_selected());
            },
        };
        let chain = self.fonts.chain(family.as_str());
        Ok(self.fonts.segment_text(text, primary, chain, self.current_weight, self.current_style))
    }

    /// Works out what `insert_text` buffers, without changing anything.
    pub fn plan_text(&self, text: &str, page_id: ObjectId, x: Fixed, y: Fixed, align: Align) -> (r:
        Result<TextPlan, PdfError>)
        requires
            self.wf(),
        ensures
            match r {
                Ok(plan) => {
                    &&& self.family() is Some
                    &&& page_height_of(self.graph()@.objects, page_id) matches HeightOutcome::Height(h)
                    &&& self.is_plan(plan, text@, x, y, align, h)
                },
                Err(e) => if self.family() is None {
                    e is FontNotFound
                } else {
                    match page_height_of(self.graph()@.objects, page_id) {
                        HeightOutcome::Height(_) => false,
                        HeightOutcome::Missing => e is LopdfError,
                        HeightOutcome::Malformed => e is ParseError,
                    }
                },
            },
    {
        let segments = self.segment_text_by_font(text)?;
        let ghost runs = self.text_runs(text@);
        let ghost variants = self.fonts.spec_variants();
        let size = self.current_font_size;
        assert(segments_view(segments@) == runs);
        let height = self.inner.page_height(page_id)?;
        let mut widths: Vec<Fixed> = Vec::new();
        let mut total = Fixed::zero();
        let mut i: usize = 0;
        while i < segments.len()
            invariant
                i <= segments.len(),
                segments_view(segments@) == runs,
                variants == self.fonts.spec_variants(),
                size == self.font_size(),
                forall|j: int|
                    0 <= j < segments@.len() ==> (#[trigger] segments@[j]).font < variants.len(),
                widths@.len() == i,
                forall|j: int|
                    0 <= j < i ==> (#[trigger] widths@[j]).micros == run_width(
                        variants,
                        runs[j],
                        size,
                    ),
                total.micros == runs_end(variants, runs, i as int, 0, size),
            decreases segments.len() - i,
        {
            let seg = &segments[i];
            assert(runs[i as int] == (seg.text@, seg.font as int));
            let run_text = string_of(&seg.text);
            let w = self.fonts.variant(seg.font).text_width_points(run_text.as_str(), size);
            widths.push(w);
            total = total.plus(w);
            i += 1;
        }
        let start = align_start(x, total, align);
        let mut planned: Vec<PlannedRun> = Vec::new();
        let mut at = start;
        let mut i: usize = 0;
        while i < segments.len()
            invariant
                i <= segments.len(),
                segments_view(segments@) == runs,
                variants == self.fonts.spec_variants(),
                size == self.font_size(),
                forall|j: int|
                    0 <= j < segments@.len() ==> (#[trigger] segments@[j]).font < variants.len(),
                widths@.len() == segments@.len(),
                forall|j: int|
                    0 <= j < widths@.len() ==> (#[trigger] widths@[j]).micros == run_width(
                        variants,
                        runs[j],
                        size,
                    ),
                at.micros == runs_end(variants, runs, i as int, start.micros, size),
                planned@.len() == i,
                forall|j: int|
                    0 <= j < i ==> {
                        &&& (#[trigger] planned@[j]).text@ == runs[j].0
                        &&& planned@[j].font == runs[j].1
                        &&& planned@[j].font < variants.len()
                        &&& planned@[j].x.micros == runs_end(variants, runs, j, start.micros, size)
                    },
            decreases segments.len() - i,
        {
            let seg = &segments[i];
            assert(runs[i as int] == (seg.text@, seg.font as int));
            planned.push(PlannedRun { text: string_of(&seg.text), font: seg.font, x: at });
            at = at.plus(widths[i]);
            i += 1;
        }
        Ok(TextPlan { runs: planned, y: height.minus(y) })
    }
}


impl PdfDocument {
    /// Whether `self` is `before` with more characters marked as used,
    /// more resource names for fonts, and more buffered runs; everything
    /// else is as it was.
    pub open(crate) spec fn text_added(&self, before: PdfDocument) -> bool {
        &&& self.inner == before.inner
        &&& self.family() == before.family()
        &&& self.weight() == before.weight()
        &&& self.style() == before.style()
        &&& self.font_size() == before.font_size()
        &&& self.text_color() == before.text_color()
        &&& self.image_tags() == before.image_tags()
        &&& self.images() == before.images()
        &&& self.embedded() == before.embedded()
        &&& self.buffers() == before.buffers()
        &&& self.counters().1 == before.counters().1
        &&& self.counters().0 >= before.counters().0
        &&& self.fonts.spec_families() == before.fonts.spec_families()
        &&& self.fonts.spec_fallbacks() == before.fonts.spec_fallbacks()
        &&& self.fonts.spec_variants().len() == before.fonts.spec_variants().len()
        &&& forall|j: int|
            0 <= j < before.fonts.spec_variants().len() ==> same_font(
                before.fonts.spec_variants()[j],
                #[trigger] self.fonts.spec_variants()[j],
            ) && self.fonts.spec_variants()[j].spec_subset()
                == before.fonts.spec_variants()[j].spec_subset() && forall|c: char|
                before.fonts.spec_variants()[j].used().contains(c)
                    ==> #[trigger] self.fonts.spec_variants()[j].used().contains(c)
        &&& before.font_tags().len() <= self.font_tags().len()
        &&& forall|i: int|
            0 <= i < before.font_tags().len() ==> (#[trigger] self.font_tags()[i])
                == before.font_tags()[i]
        &&& before.ops().len() <= self.ops().len()
        &&& forall|i: int|
            0 <= i < before.ops().len() ==> (#[trigger] self.ops()[i]) == before.ops()[i]
    }

    /// Buffers one run of text for a page: marks its characters as used,
    /// gives the font a resource name on the page, and notes the run.
    fn buffer_run(&mut self, run: &PlannedRun, page: usize, y: Fixed)
        requires
            old(self).wf(),
            run.font < old(self).registry().spec_variants().len(),
            old(self).counters().0 < u32::MAX,
        ensures
            final(self).wf(),
            final(self).text_added(*old(self)),
            final(self).counters().0 <= old(self).counters().0 + 1,
            final(self).font_tags().len() <= old(self).font_tags().len() + 1,
            forall|i: int|
                old(self).font_tags().len() <= i < final(self).font_tags().len() ==> (
                #[trigger] final(self).font_tags()[i]).page == page,
            final(self).ops().len() == old(self).ops().len() + 1,
            ({
                let op = final(self).ops().last();
                &&& op.text@ == run.text@
                &&& op.font == run.font
                &&& op.page == page
                &&& op.x == run.x
                &&& op.y == y
                &&& op.font_size == old(self).font_size()
                &&& op.color == old(self).text_color()
                &&& font_tag_index(final(self).font_tags(), page, run.font, 0) < final(self).font_tags().len()
                &&& op.tag == final(self).font_tags()[font_tag_index(
                    final(self).font_tags(),
                    page,
                    run.font,
                    0,
                )].number
            }),
    {
        let ghost before = *self;
        self.fonts.use_chars(run.font, run.text.as_str());
        proof {
            self.lemma_used_more(before);
        }
        let ghost marked = *self;
        let tag = match self.font_ref(run.font, page) {
            Ok(n) => n,
            Err(_) => 0,
        };
        let ghost tagged = *self;
        self.buffered_text_ops.push(
            BufferedTextOp {
                text: run.text.clone(),
                font: run.font,
                tag,
                page,
                x: run.x,
                y,
                font_size: self.current_font_size,
                color: self.current_text_color,
            },
        );
        proof {
            let font_now = self.fonts.spec_variants()[run.font as int];
            assert(font_now.uses_also(before.fonts.spec_variants()[run.font as int], run.text@));
            assert forall|i: int, k: int|
                0 <= i < self.ops().len() && 0 <= k
                    < self.ops()[i].text@.len() implies self.fonts.spec_variants()[self.ops()[i].font as int].used().contains(
                #[trigger] self.ops()[i].text@[k],
            ) by {
                if i < tagged.ops().len() {
                    assert(self.ops()[i] == tagged.ops()[i]);
                    assert(tagged.fonts.spec_variants()[tagged.ops()[i].font as int].used().contains(
                        tagged.ops()[i].text@[k],
                    ));
                } else {
                    assert(run.text@.contains(run.text@[k]));
                    assert(font_now.used().contains(run.text@[k]));
                }
            }
            assert forall|i: int| 0 <= i < self.ops().len() implies (#[trigger] self.ops()[i]).font
                < self.fonts.spec_variants().len() by {
                if i < tagged.ops().len() {
                    assert(self.ops()[i] == tagged.ops()[i]);
                }
            }
        }
    }

    /// After more characters were marked as used, the document is as
    /// consistent as it was.
    pub(crate) proof fn lemma_used_more(self, before: PdfDocument)
        requires
            before.wf(),
            self.fonts.wf(),
            self.inner == before.inner,
            self.current_family == before.current_family,
            self.current_weight == before.current_weight,
            self.current_style == before.current_style,
            self.current_font_size == before.current_font_size,
            self.current_text_color == before.current_text_color,
            self.embedded_fonts == before.embedded_fonts,
            self.page_font_resources == before.page_font_resources,
            self.next_font_resource == before.next_font_resource,
            self.embedded_images == before.embedded_images,
            self.page_image_resources == before.page_image_resources,
            self.next_image_resource == before.next_image_resource,
            self.page_content_buffer == before.page_content_buffer,
            self.buffered_text_ops == before.buffered_text_ops,
            self.fonts.spec_families() == before.fonts.spec_families(),
            self.fonts.spec_fallbacks() == before.fonts.spec_fallbacks(),
            self.fonts.spec_variants().len() == before.fonts.spec_variants().len(),
            forall|j: int|
                0 <= j < before.fonts.spec_variants().len() ==> same_font(
                    before.fonts.spec_variants()[j],
                    #[trigger] self.fonts.spec_variants()[j],
                ) && self.fonts.spec_variants()[j].spec_subset()
                    == before.fonts.spec_variants()[j].spec_subset() && forall|c: char|
                    before.fonts.spec_variants()[j].used().contains(c)
                        ==> #[trigger] self.fonts.spec_variants()[j].used().contains(c),
        ensures
            self.wf(),
            self.text_added(before),
    {
        assert(self.fonts.family_names() =~= before.fonts.family_names());
        assert forall|i: int, k: int|
            0 <= i < self.ops().len() && 0 <= k
                < self.ops()[i].text@.len() implies self.fonts.spec_variants()[self.ops()[i].font as int].used().contains(
            #[trigger] self.ops()[i].text@[k],
        ) by {
            let j = before.ops()[i].font as int;
            assert(j < before.fonts.spec_variants().len());
            assert(before.fonts.spec_variants()[j].used().contains(before.ops()[i].text@[k]));
            assert(same_font(before.fonts.spec_variants()[j], self.fonts.spec_variants()[j]));
        }
        assert forall|i: int| 0 <= i < self.font_tags().len() implies (
        #[trigger] self.font_tags()[i]).font < self.fonts.spec_variants().len() by {
            assert(before.font_tags()[i].font < before.fonts.spec_variants().len());
        }
        assert forall|i: int| 0 <= i < self.ops().len() implies (#[trigger] self.ops()[i]).font
            < self.fonts.spec_variants().len() by {
            assert(before.ops()[i].font < before.fonts.spec_variants().len());
        }
        assert(self.family() matches Some(n) ==> self.fonts.has_family(n));
        assert(self.chars_covered());
        self.lemma_tags_kept(before);
    }

    /// Resource names that are numbered apart stay so while they, the
    /// counters and the number of fonts do not shrink.
    pub(crate) proof fn lemma_tags_kept(self, before: PdfDocument)
        requires
            before.tags_numbered(),
            self.font_tags() == before.font_tags(),
            self.image_tags() == before.image_tags(),
            self.counters().0 >= before.counters().0,
            self.counters().1 >= before.counters().1,
            self.fonts.spec_variants().len() >= before.fonts.spec_variants().len(),
        ensures
            self.tags_numbered(),
    {
        assert forall|i: int| 0 <= i < self.font_tags().len() implies (
        #[trigger] self.font_tags()[i]).number < self.next_font_resource && self.font_tags()[i].font
            < self.fonts.spec_variants().len() by {
            assert(before.font_tags()[i].number < before.next_font_resource);
        }
        
        assert forall|i: int| 0 <= i < self.image_tags().len() implies (
        #[trigger] self.image_tags()[i]).number < self.next_image_resource by {
            assert(before.image_tags()[i].number < before.next_image_resource);
        }
        
    }
}


impl PdfDocument {
    /// Adding text after adding text is adding text.
    pub(crate) proof fn lemma_text_added_twice(self, middle: PdfDocument, before: PdfDocument)
        requires
            middle.text_added(before),
            self.text_added(middle),
        ensures
            self.text_added(before),
    {
        assert forall|j: int| 0 <= j < before.fonts.spec_variants().len() implies same_font(
            before.fonts.spec_variants()[j],
            #[trigger] self.fonts.spec_variants()[j],
        ) && self.fonts.spec_variants()[j].spec_subset()
            == before.fonts.spec_variants()[j].spec_subset() && forall|c: char|
            before.fonts.spec_variants()[j].used().contains(c)
                ==> #[trigger] self.fonts.spec_variants()[j].used().contains(c) by {
            assert(same_font(before.fonts.spec_variants()[j], middle.fonts.spec_variants()[j]));
            assert(same_font(middle.fonts.spec_variants()[j], self.fonts.spec_variants()[j]));
            assert forall|c: char|
                before.fonts.spec_variants()[j].used().contains(c)
                    implies #[trigger] self.fonts.spec_variants()[j].used().contains(c) by {
                assert(middle.fonts.spec_variants()[j].used().contains(c));
            }
        }
        assert forall|i: int| 0 <= i < before.font_tags().len() implies (
        #[trigger] self.font_tags()[i]) == before.font_tags()[i] by {
            assert(middle.font_tags()[i] == before.font_tags()[i]);
        }
        assert forall|i: int| 0 <= i < before.ops().len() implies (#[trigger] self.ops()[i])
            == before.ops()[i] by {
            assert(middle.ops()[i] == before.ops()[i]);
        }
    }

    /// Whether the run buffered at place `at` is the `i`-th run of `text`
    /// inserted into `before` at `x`, `y` on the page `page` of height
    /// `height`: the text and the font of the run, the place where it
    /// starts, the baseline measured from the bottom of the page, and the
    /// size and colour that were selected.
    pub open(crate) spec fn is_run_of(
        &self,
        at: int,
        before: PdfDocument,
        text: Seq<char>,
        i: int,
        page: usize,
        x: Fixed,
        y: Fixed,
        align: Align,
        height: i64,
    ) -> bool {
        let op = self.ops()[at];
        let runs = before.text_runs(text);
        &&& op.text@ == runs[i].0
        &&& op.font == runs[i].1
        &&& op.page == page
        &&& op.x.micros == runs_end(
            before.fonts.spec_variants(),
            runs,
            i,
            before.text_start(text, x, align),
            before.font_size(),
        )
        &&& op.y.micros == clamp_i64(height - y.micros)
        &&& op.font_size == before.font_size()
        &&& op.color == before.text_color()
    }

    /// Buffers `text` for the page `page` with the selected font, size and
    /// colour. `x` is measured from the left edge and `y` from the top edge
    /// of the page; the text starts at `x`, is centred on `x` or ends at `x`.
    ///
    /// The text falls into runs, one for each stretch of characters that
    /// the same font sets; a character that the selected variant has no
    /// glyph for goes to the first family of the fallback chain that has
    /// one. Empty text changes nothing, and so does a call that fails.
    #[verifier::rlimit(50)]
    pub fn insert_text(&mut self, text: &str, page: usize, x: Fixed, y: Fixed, align: Align) -> (r:
        Result<(), PdfError>)
        requires
            old(self).wf(),
        ensures
            final(self).wf(),
            final(self).text_added(*old(self)),
            r is Err || text@.len() == 0 ==> *final(self) == *old(self),
            match r {
                Ok(_) => {
                    &&& page_at(old(self).graph()@, page as int) matches Some(page_id)
                    &&& text@.len() > 0 ==> {
                        &&& old(self).family() is Some
                        &&& page_height_of(old(self).graph()@.objects, page_id) matches HeightOutcome::Height(h)
                        &&& final(self).ops().len() == old(self).ops().len() + old(self).text_runs(text@).len()
                        &&& forall|i: int|
                            0 <= i < old(self).text_runs(text@).len() ==> #[trigger] final(self).is_run_of(
                                old(self).ops().len() + i,
                                *old(self),
                                text@,
                                i,
                                page,
                                x,
                                y,
                                align,
                                h,
                            )
                    }
                },
                Err(e) => match page_at(old(self).graph()@, page as int) {
                    None => e matches PdfError::InvalidPage(p, n) && p == page && n == pages_of(
                        old(self).graph()@,
                    ).len(),
                    Some(page_id) => text@.len() > 0 && (if old(self).family() is None {
                        e is FontNotFound
                    } else {
                        match page_height_of(old(self).graph()@.objects, page_id) {
                            HeightOutcome::Height(_) => old(self).text_runs(text@).len() >= u32::MAX
                                - old(self).counters().0 && e is LopdfError,
                            HeightOutcome::Missing => e is LopdfError,
                            HeightOutcome::Malformed => e is ParseError,
                        }
                    }),
                },
            },
    {
        let count = self.page_count();
        let page_id = match self.inner.page_id(page) {
            Some(id) => id,
            None => {
                proof {
                    self.lemma_unchanged();
                }
                return Err(PdfError::InvalidPage(page, count));
            },
        };
        proof {
            self.lemma_unchanged();
        }
        if text.is_empty() {
            return Ok(());
        }
        let plan = self.plan_text(text, page_id, x, y, align)?;
        let n = plan.runs.len();
        if n as u64 >= (u32::MAX - self.next_font_resource) as u64 {
            return Err(PdfError::LopdfError("resource names are used up".to_owned()));
        }
        let ghost before = *self;
        let ghost runs = before.text_runs(text@);
        let ghost h = page_height_of(before.inner@.objects, page_id)->Height_0;
        let mut i: usize = 0;
        while i < n
            invariant
                i <= n,
                n == plan.runs@.len(),
                before == *old(self),
                before.wf(),
                runs == before.text_runs(text@),
                before.is_plan(plan, text@, x, y, align, h),
                self.wf(),
                self.text_added(before),
                self.counters().0 <= before.counters().0 + i,
                before.counters().0 + n < u32::MAX,
                self.ops().len() == before.ops().len() + i,
                forall|j: int|
                    0 <= j < i ==> #[trigger] self.is_run_of(
                        before.ops().len() + j,
                        before,
                        text@,
                        j,
                        page,
                        x,
                        y,
                        align,
                        h,
                    ),
            decreases n - i,
        {
            let ghost middle = *self;
            assert(plan.runs@[i as int].font < before.fonts.spec_variants().len());
            self.buffer_run(&plan.runs[i], page, plan.y);
            proof {
                self.lemma_text_added_twice(middle, before);
                assert forall|j: int| 0 <= j < i + 1 implies #[trigger] self.is_run_of(
                    before.ops().len() + j,
                    before,
                    text@,
                    j,
                    page,
                    x,
                    y,
                    align,
                    h,
                ) by {
                    if j < i {
                        assert(middle.is_run_of(
                            before.ops().len() + j,
                            before,
                            text@,
                            j,
                            page,
                            x,
                            y,
                            align,
                            h,
                        ));
                        assert(self.ops()[before.ops().len() + j] == middle.ops()[before.ops().len()
                            + j]);
                    } else {
                        assert(self.ops()[before.ops().len() + j] == self.ops().last());
                    }
                }
            }
            i += 1;
        }
        Ok(())
    }

    /// A document that did not change has received no text.
    pub(crate) proof fn lemma_unchanged(self)
        ensures
            self.text_added(self),
    {
    }
}


/// The 64-bit FNV-1a hash of the first `n` bytes of `data`.
pub open spec fn fnv1a(data: Seq<u8>, n: int) -> u64
    decreases n,
{
    if n <= 0 {
        0xcbf2_9ce4_8422_2325u64
    } else {
        vstd::wrapping::u64_specs::wrapping_mul(
            fnv1a(data, n - 1) ^ (data[n - 1] as u64),
            0x0000_0100_0000_01b3u64,
        )
    }
}

/// The hash by which image data is told apart.
pub open spec fn data_hash(data: Seq<u8>) -> u64 {
    fnv1a(data, data.len() as int)
}

/// The hash by which image data is told apart: 64-bit FNV-1a.
pub fn hash_bytes(data: &[u8]) -> (h: u64)
    ensures
        h == data_hash(data@),
{
    let mut h: u64 = 0xcbf2_9ce4_8422_2325;
    let mut i: usize = 0;
    while i < data.len()
        invariant
            i <= data.len(),
            h == fnv1a(data@, i as int),
        decreases data.len() - i,
    {
        h = (h ^ (data[i] as u64)).wrapping_mul(0x0000_0100_0000_01b3);
        i += 1;
    }
    h
}

/// The place among `images` of the first with the hash; their number
/// where there is none.
pub open spec fn image_index(images: Seq<EmbeddedImage>, hash: u64, from: int) -> int
    decreases images.len() - from,
{
    if from < 0 || from >= images.len() {
        images.len() as int
    } else if images[from].hash == hash {
        from
    } else {
        image_index(images, hash, from + 1)
    }
}

/// The place among `tags` of the first for the object on the page; their
/// number where there is none.
pub open spec fn image_tag_index(tags: Seq<ImageTag>, page: usize, object: ObjectId, from: int) -> int
    decreases tags.len() - from,
{
    if from < 0 || from >= tags.len() {
        tags.len() as int
    } else if tags[from].page == page && tags[from].object == object {
        from
    } else {
        image_tag_index(tags, page, object, from + 1)
    }
}

pub proof fn lemma_image_index(images: Seq<EmbeddedImage>, hash: u64, from: int, i: int)
    requires
        0 <= from <= i <= images.len(),
        i < images.len() ==> images[i].hash == hash,
        forall|j: int| from <= j < i ==> (#[trigger] images[j]).hash != hash,
    ensures
        image_index(images, hash, from) == i,
    decreases images.len() - from,
{
    if from < i {
        lemma_image_index(images, hash, from + 1, i);
    }
}

pub proof fn lemma_image_index_bounds(images: Seq<EmbeddedImage>, hash: u64, from: int)
    requires
        0 <= from <= images.len(),
    ensures
        from <= image_index(images, hash, from) <= images.len(),
        image_index(images, hash, from) < images.len() ==> images[image_index(
            images,
            hash,
            from,
        )].hash == hash,
        forall|j: int| from <= j < image_index(images, hash, from) ==> (#[trigger] images[j]).hash
            != hash,
    decreases images.len() - from,
{
    if from < images.len() && images[from].hash != hash {
        lemma_image_index_bounds(images, hash, from + 1);
    }
}

pub proof fn lemma_image_tag_index(
    tags: Seq<ImageTag>,
    page: usize,
    object: ObjectId,
    from: int,
    i: int,
)
    requires
        0 <= from <= i <= tags.len(),
        i < tags.len() ==> tags[i].page == page && tags[i].object == object,
        forall|j: int|
            from <= j < i ==> !((#[trigger] tags[j]).page == page && tags[j].object == object),
    ensures
        image_tag_index(tags, page, object, from) == i,
    decreases tags.len() - from,
{
    if from < i {
        lemma_image_tag_index(tags, page, object, from + 1, i);
    }
}

pub proof fn lemma_image_tag_index_bounds(
    tags: Seq<ImageTag>,
    page: usize,
    object: ObjectId,
    from: int,
)
    requires
        0 <= from <= tags.len(),
    ensures
        from <= image_tag_index(tags, page, object, from) <= tags.len(),
        image_tag_index(tags, page, object, from) < tags.len() ==> tags[image_tag_index(
            tags,
            page,
            object,
            from,
        )].page == page && tags[image_tag_index(tags, page, object, from)].object == object,
        forall|j: int|
            from <= j < image_tag_index(tags, page, object, from) ==> !((#[trigger] tags[j]).page
                == page && tags[j].object == object),
    decreases tags.len() - from,
{
    if from < tags.len() && !(tags[from].page == page && tags[from].object == object) {
        lemma_image_tag_index_bounds(tags, page, object, from + 1);
    }
}

/// The operators buffered for a page; none where nothing is buffered.
pub open spec fn buffered(buffers: Seq<(usize, Seq<u8>)>, page: usize) -> Seq<u8> {
    match lookup(buffers, page) {
        Some(b) => b,
        None => Seq::empty(),
    }
}

impl PdfDocument {
    fn image_position(&self, hash: u64) -> (i: usize)
        ensures
            i == image_index(self.images(), hash, 0),
            i <= self.images().len(),
            i < self.images().len() ==> self.images()[i as int].hash == hash,
    {
        let mut i: usize = 0;
        while i < self.embedded_images.len()
            invariant
                i <= self.embedded_images.len(),
                image_index(self.images(), hash, 0) == image_index(self.images(), hash, i as int),
            decreases self.embedded_images.len() - i,
        {
            if self.embedded_images[i].hash == hash {
                return i;
            }
            i += 1;
        }
        i
    }

    fn image_tag_position(&self, page: usize, object: ObjectId) -> (i: usize)
        ensures
            i == image_tag_index(self.image_tags(), page, object, 0),
            i <= self.image_tags().len(),
            i < self.image_tags().len() ==> self.image_tags()[i as int].page == page
                && self.image_tags()[i as int].object == object,
    {
        let mut i: usize = 0;
        while i < self.page_image_resources.len()
            invariant
                i <= self.page_image_resources.len(),
                image_tag_index(self.image_tags(), page, object, 0) == image_tag_index(
                    self.image_tags(),
                    page,
                    object,
                    i as int,
                ),
            decreases self.page_image_resources.len() - i,
        {
            let t = &self.page_image_resources[i];
            if t.page == page && t.object.0 == object.0 && t.object.1 == object.1 {
                return i;
            }
            i += 1;
        }
        i
    }

    /// Whether nothing but the buffered operators differs from `before`.
    pub open(crate) spec fn only_buffers_changed(&self, before: PdfDocument) -> bool {
        &&& self.inner == before.inner
        &&& self.fonts == before.fonts
        &&& self.family() == before.family()
        &&& self.weight() == before.weight()
        &&& self.style() == before.style()
        &&& self.font_size() == before.font_size()
        &&& self.text_color() == before.text_color()
        &&& self.ops() == before.ops()
        &&& self.font_tags() == before.font_tags()
        &&& self.image_tags() == before.image_tags()
        &&& self.images() == before.images()
        &&& self.embedded() == before.embedded()
        &&& self.counters() == before.counters()
    }

    /// Adds operators to those that wait to be written into a page.
    pub fn buffer_content(&mut self, page: usize, content: &[u8])
        ensures
            final(self).only_buffers_changed(*old(self)),
            final(self).buffers() == assign(
                old(self).buffers(),
                page,
                buffered(old(self).buffers(), page) + content@,
            ),
            old(self).wf() ==> final(self).wf(),
    {
        let ghost before = self.buffers();
        let i = self.buffer_position(page);
        let mut added = copy_bytes(content);
        if i < self.page_content_buffer.len() {
            let mut entry: (usize, Vec<u8>) = (page, Vec::new());
            std::mem::swap(&mut entry, &mut self.page_content_buffer[i]);
            entry.1.append(&mut added);
            self.page_content_buffer[i] = entry;
        } else {
            self.page_content_buffer.push((page, added));
        }
        proof {
            let after = self.buffers();
            let want = assign(before, page, buffered(before, page) + content@);
            crate::assoc::lemma_find_bounds(before, page, 0);
            if i < before.len() {
                assert(before[i as int].0 == page);
                assert(after.len() == before.len());
                assert(after[i as int] == (page, before[i as int].1 + content@));
                assert forall|j: int| 0 <= j < after.len() implies after[j] == want[j] by {
                    if j != i {
                        assert(self.page_content_buffer@[j] == old(self).page_content_buffer@[j]);
                    }
                }
            } else {
                assert(after.len() == before.len() + 1);
                assert forall|j: int| 0 <= j < after.len() implies after[j] == want[j] by {
                    if j < before.len() {
                        assert(self.page_content_buffer@[j] == old(self).page_content_buffer@[j]);
                    }
                }
            }
            assert(after =~= want);
        }
        proof {
            if old(self).wf() {
                self.lemma_wf_frame(*old(self));
            }
        }
    }

    fn buffer_position(&self, page: usize) -> (i: usize)
        ensures
            i == find(self.buffers(), page, 0),
            i <= self.buffers().len(),
    {
        let mut i: usize = 0;
        while i < self.page_content_buffer.len()
            invariant
                i <= self.page_content_buffer.len(),
                forall|j: int| 0 <= j < i ==> (#[trigger] self.buffers()[j]).0 != page,
            decreases self.page_content_buffer.len() - i,
        {
            if self.page_content_buffer[i].0 == page {
                proof {
                    lemma_find_unique(self.buffers(), page, 0, i as int);
                }
                return i;
            }
            i += 1;
        }
        proof {
            lemma_find_unique(self.buffers(), page, 0, i as int);
        }
        i
    }

    /// A document is as consistent as another that has the same graph,
    /// fonts, selected family, buffered runs and resource names.
    pub(crate) proof fn lemma_wf_frame(self, before: PdfDocument)
        requires
            before.wf(),
            self.inner == before.inner,
            self.fonts == before.fonts,
            self.family() == before.family(),
            self.ops() == before.ops(),
            self.font_tags() == before.font_tags(),
            self.image_tags() == before.image_tags(),
            self.counters() == before.counters(),
        ensures
            self.wf(),
    {
        assert forall|i: int, k: int|
            0 <= i < self.ops().len() && 0 <= k
                < self.ops()[i].text@.len() implies self.fonts.spec_variants()[self.ops()[i].font as int].used().contains(
            #[trigger] self.ops()[i].text@[k],
        ) by {
            assert(before.fonts.spec_variants()[before.ops()[i].font as int].used().contains(
                before.ops()[i].text@[k],
            ));
        }
        assert forall|i: int| 0 <= i < self.ops().len() implies (#[trigger] self.ops()[i]).font
            < self.fonts.spec_variants().len() by {
            assert(before.ops()[i].font < before.fonts.spec_variants().len());
        }
        self.lemma_tags_kept(before);
    }
}


/// The objects after the name `Im<number>` for `object` was written into
/// the `XObject` resources of the page dictionary `page_id`.
pub open spec fn with_image_name(
    objs: crate::store::Objects,
    page_id: ObjectId,
    number: u32,
    object: ObjectId,
) -> crate::store::Objects {
    match dictionary_at(objs, page_id) {
        Some(dict) => assign(
            objs,
            page_id,
            Value::Dictionary(
                page_with_resources(objs, dict, nm("XObject"), seq![(image_name(number), object)]),
            ),
        ),
        None => objs,
    }
}

/// The bytes of the resource name `Im<number>`.
pub open spec fn image_name(number: u32) -> Seq<u8> {
    vstd::utf8::encode_utf8("Im"@ + decimal_chars(number as nat))
}

impl PdfDocument {
    /// Whether nothing that concerns text differs from `before`: the
    /// fonts, the selection, the buffered runs and the resource names of fonts.
    pub open(crate) spec fn text_kept(&self, before: PdfDocument) -> bool {
        &&& self.fonts == before.fonts
        &&& self.family() == before.family()
        &&& self.weight() == before.weight()
        &&& self.style() == before.style()
        &&& self.font_size() == before.font_size()
        &&& self.text_color() == before.text_color()
        &&& self.ops() == before.ops()
        &&& self.font_tags() == before.font_tags()
        &&& self.embedded() == before.embedded()
        &&& self.counters().0 == before.counters().0
    }

    /// Whether the image with this hash is embedded and has a resource
    /// name on the page.
    pub open(crate) spec fn has_image_on_page(&self, hash: u64, page: usize) -> bool {
        let i = image_index(self.images(), hash, 0);
        i < self.images().len() && image_tag_index(
            self.image_tags(),
            page,
            self.images()[i].object,
            0,
        ) < self.image_tags().len()
    }

    /// The operators that draw the image with this hash on the page, in a
    /// rectangle of `width` by `height` whose top left corner lies `x`
    /// from the left and `y` from the top of a page of height `page_height`.
    pub open(crate) spec fn image_drawing(
        &self,
        hash: u64,
        page: usize,
        x: Fixed,
        y: Fixed,
        width: Fixed,
        height: Fixed,
        mode: ImageScaleMode,
        page_height: i64,
    ) -> Seq<u8> {
        let img = self.images()[image_index(self.images(), hash, 0)];
        let tag = self.image_tags()[image_tag_index(self.image_tags(), page, img.object, 0)];
        let size = scaled_dimensions(img.width, img.height, width, height, mode);
        image_operators(
            image_name(tag.number),
            x,
            Fixed { micros: clamp_i64(clamp_i64(page_height - y.micros) - size.1) },
            Fixed { micros: size.0 },
            Fixed { micros: size.1 },
        )
    }

    /// Whether `e` is the error with which an image is refused on a page
    /// that exists and has a height: the data are not embedded yet and are
    /// no image or find no free object number, or the image needs a
    /// resource name on the page and the numbers for names are used up.
    pub open(crate) spec fn image_refused(&self, data: Seq<u8>, page: usize, e: PdfError) -> bool {
        let i = image_index(self.images(), data_hash(data), 0);
        if i < self.images().len() {
            image_tag_index(self.image_tags(), page, self.images()[i].object, 0)
                == self.image_tags().len() && self.counters().1 == u32::MAX && e is LopdfError
        } else if embedded_image(data) is None {
            e is ImageError
        } else if self.graph()@.max_id == u32::MAX {
            e is LopdfError
        } else {
            image_tag_index(
                self.image_tags(),
                page,
                ((self.graph()@.max_id + 1) as u32, 0u16),
                0,
            ) == self.image_tags().len() && self.counters().1 == u32::MAX && e is LopdfError
        }
    }

    /// Whether nothing but the graph, the images and their resource names
    /// differs from `before`.
    pub open(crate) spec fn only_images_changed(&self, before: PdfDocument) -> bool {
        &&& self.text_kept(before)
        &&& self.buffers() == before.buffers()
    }

    /// Gives the object a new resource name on the page and writes it into
    /// the resources of the page.
    fn new_image_tag(&mut self, page_id: ObjectId, page: usize, object: ObjectId) -> (r: Result<
        u32,
        PdfError,
    >)
        requires
            old(self).wf(),
            image_tag_index(old(self).image_tags(), page, object, 0) == old(self).image_tags().len(),
        ensures
            final(self).wf(),
            final(self).only_images_changed(*old(self)),
            final(self).images() == old(self).images(),
            final(self).graph()@.max_id == old(self).graph()@.max_id,
            final(self).graph()@.trailer == old(self).graph()@.trailer,
            match r {
                Ok(number) => {
                    &&& number == old(self).counters().1
                    &&& final(self).counters().1 == number + 1
                    &&& final(self).image_tags() == old(self).image_tags().push(
                        ImageTag { page, number, object },
                    )
                    &&& image_tag_index(final(self).image_tags(), page, object, 0) == old(self).image_tags().len()
                    &&& dictionary_at(old(self).graph()@.objects, page_id) matches Some(dict)
                    &&& final(self).graph()@.objects == assign(
                        old(self).graph()@.objects,
                        page_id,
                        Value::Dictionary(
                            page_with_resources(
                                old(self).graph()@.objects,
                                dict,
                                nm("XObject"),
                                seq![(image_name(number), object)],
                            ),
                        ),
                    )
                },
                Err(e) => *final(self) == *old(self) && (if old(self).counters().1 == u32::MAX {
                    e is LopdfError
                } else {
                    !(object_at(old(self).graph()@.objects, page_id) matches Some(
                        Value::Dictionary(_),
                    ))
                }),
            },
    {
        if self.next_image_resource == u32::MAX {
            return Err(PdfError::LopdfError("resource names are used up".to_owned()));
        }
        let number = self.next_image_resource;
        let mut adds: Vec<(Vec<u8>, ObjectId)> = Vec::new();
        adds.push((copy_bytes(resource_name("Im", number).as_str().as_bytes()), object));
        assert(crate::pages::references_view(adds@) =~= seq![(image_name(number), object)]);
        proof {
            let objs = self.inner@.objects;
            crate::assoc::lemma_find_bounds(objs, page_id, 0);
            if lookup(objs, page_id) is Some {
                assert(objs[find(objs, page_id, 0)].0.0 <= self.inner@.max_id);
            }
            assert(dictionary_at(objs, page_id) is Some ==> lookup(objs, page_id) is Some);
        }
        self.inner.add_page_resources(page_id, "XObject", &adds)?;
        self.page_image_resources.push(ImageTag { page, number, object });
        self.next_image_resource = number + 1;
        proof {
            let before = *old(self);
            self.lemma_image_tag_pushed(before, page, number, object);
        }
        Ok(number)
    }

    /// After one resource name for an image was added with the number of
    /// the counter, the document is as consistent as it was.
    pub(crate) proof fn lemma_image_tag_pushed(
        self,
        before: PdfDocument,
        page: usize,
        number: u32,
        object: ObjectId,
    )
        requires
            before.wf(),
            self.inner.wf(),
            self.text_kept(before),
            number == before.counters().1,
            self.counters().1 == number + 1,
            self.image_tags() == before.image_tags().push(ImageTag { page, number, object }),
            image_tag_index(before.image_tags(), page, object, 0) == before.image_tags().len(),
        ensures
            self.wf(),
            image_tag_index(self.image_tags(), page, object, 0) == before.image_tags().len(),
    {
        assert forall|i: int, k: int|
            0 <= i < self.ops().len() && 0 <= k
                < self.ops()[i].text@.len() implies self.fonts.spec_variants()[self.ops()[i].font as int].used().contains(
            #[trigger] self.ops()[i].text@[k],
        ) by {
            assert(before.fonts.spec_variants()[before.ops()[i].font as int].used().contains(
                before.ops()[i].text@[k],
            ));
        }
        assert forall|i: int| 0 <= i < self.ops().len() implies (#[trigger] self.ops()[i]).font
            < self.fonts.spec_variants().len() by {
            assert(before.ops()[i].font < before.fonts.spec_variants().len());
        }
        assert forall|i: int| 0 <= i < self.font_tags().len() implies (
        #[trigger] self.font_tags()[i]).number < self.next_font_resource && self.font_tags()[i].font
            < self.fonts.spec_variants().len() by {
            assert(before.font_tags()[i].number < before.next_font_resource);
        }
        
        assert forall|i: int| 0 <= i < self.image_tags().len() implies (
        #[trigger] self.image_tags()[i]).number < self.next_image_resource by {
            if i < before.image_tags().len() {
                assert(before.image_tags()[i].number < before.next_image_resource);
            }
        }
        lemma_image_tag_index_bounds(before.image_tags(), page, object, 0);
        assert forall|i: int, j: int|
            0 <= i < j < self.image_tags().len() && (#[trigger] self.image_tags()[i]).page == (
            #[trigger] self.image_tags()[j]).page implies self.image_tags()[i].number
            != self.image_tags()[j].number && self.image_tags()[i].object
            != self.image_tags()[j].object by {
            if j < before.image_tags().len() {
                assert(before.image_tags()[i].page == before.image_tags()[j].page);
            } else {
                assert(before.image_tags()[i].number < before.next_image_resource);
                assert(self.image_tags()[i] == before.image_tags()[i]);
            }
        }
        lemma_image_tag_index_bounds(before.image_tags(), page, object, 0);
        assert forall|j: int| 0 <= j < before.image_tags().len() implies !((
        #[trigger] self.image_tags()[j]).page == page && self.image_tags()[j].object
            == object) by {
            assert(self.image_tags()[j] == before.image_tags()[j]);
        }
        lemma_image_tag_index(
            self.image_tags(),
            page,
            object,
            0,
            before.image_tags().len() as int,
        );
    }

    /// Embeds an image as the next object of the graph.
    fn embed_image(&mut self, x_object: &ImageXObject, hash: u64) -> (object: ObjectId)
        requires
            old(self).wf(),
            old(self).graph()@.max_id < u32::MAX,
            image_index(old(self).images(), hash, 0) == old(self).images().len(),
        ensures
            final(self).wf(),
            final(self).only_images_changed(*old(self)),
            final(self).image_tags() == old(self).image_tags(),
            final(self).counters() == old(self).counters(),
            object == ((old(self).graph()@.max_id + 1) as u32, 0u16),
            final(self).graph()@.objects == old(self).graph()@.objects.push(
                (object, x_object.stream_value()),
            ),
            lookup(final(self).graph()@.objects, object) == Some(x_object.stream_value()),
            final(self).graph()@.trailer == old(self).graph()@.trailer,
            final(self).images() == old(self).images().push(
                EmbeddedImage { hash, object, width: x_object.width, height: x_object.height },
            ),
            image_index(final(self).images(), hash, 0) == old(self).images().len(),
    {
        let object: ObjectId = (self.inner.max_id + 1, 0);
        proof {
            crate::assoc::lemma_assign_lookup(
                self.inner@.objects,
                object,
                x_object.stream_value(),
                object,
            );
        }
        self.inner.add_object(Object::Stream(x_object.to_pdf_stream()));
        self.embedded_images.push(
            EmbeddedImage { hash, object, width: x_object.width, height: x_object.height },
        );
        proof {
            let before = *old(self);
            assert forall|i: int, k: int|
                0 <= i < self.ops().len() && 0 <= k
                    < self.ops()[i].text@.len() implies self.fonts.spec_variants()[self.ops()[i].font as int].used().contains(
                #[trigger] self.ops()[i].text@[k],
            ) by {
                assert(before.fonts.spec_variants()[before.ops()[i].font as int].used().contains(
                    before.ops()[i].text@[k],
                ));
            }
            assert forall|i: int| 0 <= i < self.ops().len() implies (#[trigger] self.ops()[i]).font
                < self.fonts.spec_variants().len() by {
                assert(before.ops()[i].font < before.fonts.spec_variants().len());
            }
            self.lemma_tags_kept(before);
            lemma_image_index_bounds(before.images(), hash, 0);
            assert forall|j: int| 0 <= j < before.images().len() implies (
            #[trigger] self.images()[j]).hash != hash by {
                assert(self.images()[j] == before.images()[j]);
            }
            lemma_image_index(self.images(), hash, 0, before.images().len() as int);
        }
        object
    }

    /// Whether graph, resource names and counters of `self` are those of
    /// `before` after the image that `data` holds was given its place on
    /// the page `page`, whose dictionary is the object `page_id`. The
    /// image is the object that holds it already, else the next object of
    /// the graph. Where it has no name on the page yet, the name with the
    /// number of the counter is written into the `XObject` resources of
    /// the page, and the counter goes up by one; where it has one,
    /// names and counters stay. Where it was not embedded yet, it is added
    /// at the end of the objects. Nothing else of the graph changes.
    pub open(crate) spec fn image_named(
        &self,
        before: PdfDocument,
        data: Seq<u8>,
        page: usize,
        page_id: ObjectId,
    ) -> bool {
        let i = image_index(before.images(), data_hash(data), 0);
        let object = if i < before.images().len() {
            before.images()[i].object
        } else {
            ((before.graph()@.max_id + 1) as u32, 0u16)
        };
        let named = image_tag_index(before.image_tags(), page, object, 0) < before.image_tags().len();
        let number = before.counters().1;
        let base = if named {
            before.graph()@.objects
        } else {
            with_image_name(before.graph()@.objects, page_id, number, object)
        };
        &&& self.graph()@.trailer == before.graph()@.trailer
        &&& self.counters().0 == before.counters().0
        &&& if named {
            self.image_tags() == before.image_tags() && self.counters().1 == number
        } else {
            self.image_tags() == before.image_tags().push(ImageTag { page, number, object })
                && self.counters().1 == number + 1
        }
        &&& if i < before.images().len() {
            self.graph()@.objects == base
        } else {
            embedded_image(data) matches Some(img) && self.graph()@.objects == base.push(
                (object, img.2),
            )
        }
    }

    /// Whether `self` is `before` after an image was drawn on a page with
    /// the result `r`: on success the image is embedded, once, has one
    /// resource name on the page, and the operators that draw it are
    /// buffered; each failure comes with its cause.
    pub open(crate) spec fn image_drawn(
        &self,
        before: PdfDocument,
        data: Seq<u8>,
        page: usize,
        x: Fixed,
        y: Fixed,
        width: Fixed,
        height: Fixed,
        mode: ImageScaleMode,
        r: Result<(), PdfError>,
    ) -> bool {
        match r {
            Ok(_) => {
                let hash = data_hash(data);
                &&& page_at(before.graph()@, page as int) matches Some(page_id)
                &&& page_height_of(before.graph()@.objects, page_id) matches HeightOutcome::Height(h)
                &&& self.has_image_on_page(hash, page)
                &&& self.buffers() == assign(
                    before.buffers(),
                    page,
                    buffered(before.buffers(), page) + self.image_drawing(
                        hash,
                        page,
                        x,
                        y,
                        width,
                        height,
                        mode,
                        h,
                    ),
                )
                &&& before.has_image_on_page(hash, page) ==> {
                    &&& self.graph() == before.graph()
                    &&& self.images() == before.images()
                    &&& self.image_tags() == before.image_tags()
                    &&& self.counters() == before.counters()
                }
                &&& self.image_named(before, data, page, page_id)
                &&& image_index(before.images(), hash, 0) < before.images().len()
                    ==> self.images() == before.images()
                &&& image_index(before.images(), hash, 0) == before.images().len() ==> {
                    &&& embedded_image(data) matches Some(img)
                    &&& self.images() == before.images().push(
                        EmbeddedImage {
                            hash,
                            object: ((before.graph()@.max_id + 1) as u32, 0u16),
                            width: img.0,
                            height: img.1,
                        },
                    )
                    &&& lookup(
                        self.graph()@.objects,
                        ((before.graph()@.max_id + 1) as u32, 0u16),
                    ) == Some(img.2)
                }
            },
            Err(e) => match page_at(before.graph()@, page as int) {
                None => e matches PdfError::InvalidPage(p, n) && p == page && n == pages_of(
                    before.graph()@,
                ).len(),
                Some(page_id) => match page_height_of(before.graph()@.objects, page_id) {
                    HeightOutcome::Missing => e is LopdfError,
                    HeightOutcome::Malformed => e is ParseError,
                    HeightOutcome::Height(_) => before.image_refused(data, page, e),
                },
            },
        }
    }

    /// Draws an image on a page: the image is embedded unless the same
    /// data is embedded already, gets a resource name on the page unless
    /// it has one there, and the operators that draw it are buffered.
    /// `x` and `y` give the top left corner, `y` measured from the top of
    /// the page. A call that fails changes nothing.
    #[verifier::rlimit(50)]
    pub fn insert_image_scaled(
        &mut self,
        data: &[u8],
        page: usize,
        x: Fixed,
        y: Fixed,
        width: Fixed,
        height: Fixed,
        mode: ImageScaleMode,
    ) -> (r: Result<(), PdfError>)
        requires
            old(self).wf(),
        ensures
            final(self).wf(),
            final(self).text_kept(*old(self)),
            r is Err ==> *final(self) == *old(self),
            final(self).image_drawn(*old(self), data@, page, x, y, width, height, mode, r),
    {
        let count = self.page_count();
        let page_id = match self.inner.page_id(page) {
            Some(id) => id,
            None => {
                return Err(PdfError::InvalidPage(page, count));
            },
        };
        let page_height = self.inner.page_height(page_id)?;
        assert(object_at(self.inner@.objects, page_id) matches Some(Value::Dictionary(_)));
        let hash = hash_bytes(data);
        let found = self.image_position(hash);
        let number: u32;
        let image_width: u32;
        let image_height: u32;
        if found < self.embedded_images.len() {
            let object = self.embedded_images[found].object;
            image_width = self.embedded_images[found].width;
            image_height = self.embedded_images[found].height;
            let tag_at = self.image_tag_position(page, object);
            if tag_at < self.page_image_resources.len() {
                number = self.page_image_resources[tag_at].number;
            } else {
                number = self.new_image_tag(page_id, page, object)?;
            }
        } else {
            let x_object = ImageXObject::from_data(data)?;
            if self.inner.max_id == u32::MAX {
                return Err(PdfError::LopdfError("object numbers are used up".to_owned()));
            }
            let object: ObjectId = (self.inner.max_id + 1, 0);
            let tag_at = self.image_tag_position(page, object);
            if tag_at < self.page_image_resources.len() {
                number = self.page_image_resources[tag_at].number;
            } else {
                number = self.new_image_tag(page_id, page, object)?;
            }
            self.embed_image(&x_object, hash);
            image_width = x_object.width;
            image_height = x_object.height;
        }
        let (w, h) = calculate_scaled_dimensions(image_width, image_height, width, height, mode);
        let pdf_y = page_height.minus(y).minus(h);
        let name = resource_name("Im", number);
        let operators = generate_image_operators(name.as_str(), x, pdf_y, w, h);
        self.buffer_content(page, operators.as_slice());
        Ok(())
    }

    /// Draws an image on a page, stretched to the rectangle given.
    pub fn insert_image(
        &mut self,
        data: &[u8],
        page: usize,
        x: Fixed,
        y: Fixed,
        width: Fixed,
        height: Fixed,
    ) -> (r: Result<(), PdfError>)
        requires
            old(self).wf(),
        ensures
            final(self).wf(),
            final(self).text_kept(*old(self)),
            r is Err ==> *final(self) == *old(self),
            final(self).image_drawn(
                *old(self),
                data@,
                page,
                x,
                y,
                width,
                height,
                ImageScaleMode::Stretch,
                r,
            ),
    {
        self.insert_image_scaled(data, page, x, y, width, height, ImageScaleMode::Stretch)
    }
}


/// Whether a resource name for the font or with the number stands among
/// the first `n` of `tags` for the page.
pub open spec fn font_tag_clash(tags: Seq<FontTag>, n: int, page: usize, font: usize, number: u32) -> bool
    decreases n,
{
    if n <= 0 {
        false
    } else {
        (tags[n - 1].page == page && (tags[n - 1].font == font || tags[n - 1].number == number))
            || font_tag_clash(tags, n - 1, page, font, number)
    }
}

/// The resource names of fonts after those of the page `page` among the
/// first `n` were given to the page `copy` as well; a name is left out
/// where the copy has one for the font or with the number already.
pub open spec fn mirrored_font_tags(tags: Seq<FontTag>, n: int, page: usize, copy: usize) -> Seq<
    FontTag,
>
    decreases n,
{
    if n <= 0 {
        tags
    } else {
        let acc = mirrored_font_tags(tags, n - 1, page, copy);
        let t = tags[n - 1];
        if t.page == page && !font_tag_clash(acc, acc.len() as int, copy, t.font, t.number) {
            acc.push(FontTag { page: copy, font: t.font, number: t.number })
        } else {
            acc
        }
    }
}

/// Whether a resource name for the object or with the number stands among
/// the first `n` of `tags` for the page.
pub open spec fn image_tag_clash(
    tags: Seq<ImageTag>,
    n: int,
    page: usize,
    object: ObjectId,
    number: u32,
) -> bool
    decreases n,
{
    if n <= 0 {
        false
    } else {
        (tags[n - 1].page == page && (tags[n - 1].object == object || tags[n - 1].number
            == number)) || image_tag_clash(tags, n - 1, page, object, number)
    }
}

/// The resource names of images after those of the page `page` among the
/// first `n` were given to the page `copy` as well.
pub open spec fn mirrored_image_tags(tags: Seq<ImageTag>, n: int, page: usize, copy: usize) -> Seq<
    ImageTag,
>
    decreases n,
{
    if n <= 0 {
        tags
    } else {
        let acc = mirrored_image_tags(tags, n - 1, page, copy);
        let t = tags[n - 1];
        if t.page == page && !image_tag_clash(acc, acc.len() as int, copy, t.object, t.number) {
            acc.push(ImageTag { page: copy, number: t.number, object: t.object })
        } else {
            acc
        }
    }
}

/// The buffered runs after those for the page `page` among the first `n`
/// were buffered for the page `copy` as well.
pub open spec fn mirrored_ops(ops: Seq<BufferedTextOp>, n: int, page: usize, copy: usize) -> Seq<
    BufferedTextOp,
>
    decreases n,
{
    if n <= 0 {
        ops
    } else {
        let acc = mirrored_ops(ops, n - 1, page, copy);
        let op = ops[n - 1];
        if op.page == page {
            acc.push(
                BufferedTextOp {
                    text: op.text,
                    font: op.font,
                    tag: op.tag,
                    page: copy,
                    x: op.x,
                    y: op.y,
                    font_size: op.font_size,
                    color: op.color,
                },
            )
        } else {
            acc
        }
    }
}

/// Mirroring keeps what was there and adds at the end.
pub proof fn lemma_mirrored_font_tags(tags: Seq<FontTag>, n: int, page: usize, copy: usize)
    requires
        0 <= n <= tags.len(),
        font_tags_apart(tags),
    ensures
        ({
            let m = mirrored_font_tags(tags, n, page, copy);
            &&& tags.len() <= m.len()
            &&& m.take(tags.len() as int) == tags
            &&& font_tags_apart(m)
            &&& forall|i: int|
                tags.len() <= i < m.len() ==> (#[trigger] m[i]).page == copy && exists|k: int|
                    0 <= k < n && tags[k].page == page && #[trigger] tags[k].font == m[i].font
                        && tags[k].number == m[i].number
        }),
    decreases n,
{
    let m = mirrored_font_tags(tags, n, page, copy);
    if n <= 0 {
        assert(m.take(tags.len() as int) =~= tags);
    } else {
        lemma_mirrored_font_tags(tags, n - 1, page, copy);
        let acc = mirrored_font_tags(tags, n - 1, page, copy);
        let t = tags[n - 1];
        if t.page == page && !font_tag_clash(acc, acc.len() as int, copy, t.font, t.number) {
            assert(m.take(tags.len() as int) =~= acc.take(tags.len() as int));
            assert forall|i: int, j: int|
                0 <= i < j < m.len() && (#[trigger] m[i]).page == (
                #[trigger] m[j]).page implies m[i].number != m[j].number && m[i].font
                != m[j].font by {
                if j < acc.len() {
                    assert(acc[i].page == acc[j].page);
                } else {
                    lemma_no_font_tag_clash(acc, acc.len() as int, copy, t.font, t.number, i);
                }
            }
            assert forall|i: int| tags.len() <= i < m.len() implies (#[trigger] m[i]).page == copy
                && exists|k: int|
                0 <= k < n && tags[k].page == page && #[trigger] tags[k].font == m[i].font
                    && tags[k].number == m[i].number by {
                if i < acc.len() {
                    assert(acc[i].page == copy);
                    let k = choose|k: int|
                        0 <= k < n - 1 && tags[k].page == page && #[trigger] tags[k].font
                            == acc[i].font && tags[k].number == acc[i].number;
                    assert(tags[k].font == m[i].font);
                } else {
                    assert(tags[n - 1].font == m[i].font);
                }
            }
        } else {
            assert forall|i: int| tags.len() <= i < m.len() implies (#[trigger] m[i]).page == copy
                && exists|k: int|
                0 <= k < n && tags[k].page == page && #[trigger] tags[k].font == m[i].font
                    && tags[k].number == m[i].number by {
                assert(acc[i].page == copy);
                let k = choose|k: int|
                    0 <= k < n - 1 && tags[k].page == page && #[trigger] tags[k].font
                        == acc[i].font && tags[k].number == acc[i].number;
                assert(tags[k].font == m[i].font);
            }
        }
    }
}

/// Where nothing clashes, no name for the page shares the font or the number.
pub proof fn lemma_no_font_tag_clash(
    tags: Seq<FontTag>,
    n: int,
    page: usize,
    font: usize,
    number: u32,
    i: int,
)
    requires
        0 <= i < n <= tags.len(),
        !font_tag_clash(tags, n, page, font, number),
    ensures
        tags[i].page == page ==> tags[i].font != font && tags[i].number != number,
    decreases n,
{
    if i < n - 1 {
        lemma_no_font_tag_clash(tags, n - 1, page, font, number, i);
    }
}

/// Mirroring keeps what was there and adds at the end, for images.
pub proof fn lemma_mirrored_image_tags(tags: Seq<ImageTag>, n: int, page: usize, copy: usize)
    requires
        0 <= n <= tags.len(),
        image_tags_apart(tags),
    ensures
        ({
            let m = mirrored_image_tags(tags, n, page, copy);
            &&& tags.len() <= m.len()
            &&& m.take(tags.len() as int) == tags
            &&& image_tags_apart(m)
            &&& forall|i: int|
                tags.len() <= i < m.len() ==> (#[trigger] m[i]).page == copy && exists|k: int|
                    0 <= k < n && tags[k].page == page && #[trigger] tags[k].object == m[i].object
                        && tags[k].number == m[i].number
        }),
    decreases n,
{
    let m = mirrored_image_tags(tags, n, page, copy);
    if n <= 0 {
        assert(m.take(tags.len() as int) =~= tags);
    } else {
        lemma_mirrored_image_tags(tags, n - 1, page, copy);
        let acc = mirrored_image_tags(tags, n - 1, page, copy);
        let t = tags[n - 1];
        if t.page == page && !image_tag_clash(acc, acc.len() as int, copy, t.object, t.number) {
            assert(m.take(tags.len() as int) =~= acc.take(tags.len() as int));
            assert forall|i: int, j: int|
                0 <= i < j < m.len() && (#[trigger] m[i]).page == (
                #[trigger] m[j]).page implies m[i].number != m[j].number && m[i].object
                != m[j].object by {
                if j < acc.len() {
                    assert(acc[i].page == acc[j].page);
                } else {
                    lemma_no_image_tag_clash(acc, acc.len() as int, copy, t.object, t.number, i);
                }
            }
            assert forall|i: int| tags.len() <= i < m.len() implies (#[trigger] m[i]).page == copy
                && exists|k: int|
                0 <= k < n && tags[k].page == page && #[trigger] tags[k].object == m[i].object
                    && tags[k].number == m[i].number by {
                if i < acc.len() {
                    assert(acc[i].page == copy);
                    let k = choose|k: int|
                        0 <= k < n - 1 && tags[k].page == page && #[trigger] tags[k].object
                            == acc[i].object && tags[k].number == acc[i].number;
                    assert(tags[k].object == m[i].object);
                } else {
                    assert(tags[n - 1].object == m[i].object);
                }
            }
        } else {
            assert forall|i: int| tags.len() <= i < m.len() implies (#[trigger] m[i]).page == copy
                && exists|k: int|
                0 <= k < n && tags[k].page == page && #[trigger] tags[k].object == m[i].object
                    && tags[k].number == m[i].number by {
                assert(acc[i].page == copy);
                let k = choose|k: int|
                    0 <= k < n - 1 && tags[k].page == page && #[trigger] tags[k].object
                        == acc[i].object && tags[k].number == acc[i].number;
                assert(tags[k].object == m[i].object);
            }
        }
    }
}

/// Where nothing clashes, no name for the page shares the object or the number.
pub proof fn lemma_no_image_tag_clash(
    tags: Seq<ImageTag>,
    n: int,
    page: usize,
    object: ObjectId,
    number: u32,
    i: int,
)
    requires
        0 <= i < n <= tags.len(),
        !image_tag_clash(tags, n, page, object, number),
    ensures
        tags[i].page == page ==> tags[i].object != object && tags[i].number != number,
    decreases n,
{
    if i < n - 1 {
        lemma_no_image_tag_clash(tags, n - 1, page, object, number, i);
    }
}


impl PdfDocument {
    fn font_tag_clashes(&self, page: usize, font: usize, number: u32) -> (r: bool)
        ensures
            r == font_tag_clash(
                self.font_tags(),
                self.font_tags().len() as int,
                page,
                font,
                number,
            ),
    {
        let mut r = false;
        let mut i: usize = 0;
        while i < self.page_font_resources.len()
            invariant
                i <= self.page_font_resources.len(),
                r == font_tag_clash(self.font_tags(), i as int, page, font, number),
            decreases self.page_font_resources.len() - i,
        {
            let t = &self.page_font_resources[i];
            if t.page == page && (t.font == font || t.number == number) {
                r = true;
            }
            i += 1;
        }
        r
    }

    fn image_tag_clashes(&self, page: usize, object: ObjectId, number: u32) -> (r: bool)
        ensures
            r == image_tag_clash(
                self.image_tags(),
                self.image_tags().len() as int,
                page,
                object,
                number,
            ),
    {
        let mut r = false;
        let mut i: usize = 0;
        while i < self.page_image_resources.len()
            invariant
                i <= self.page_image_resources.len(),
                r == image_tag_clash(self.image_tags(), i as int, page, object, number),
            decreases self.page_image_resources.len() - i,
        {
            let t = &self.page_image_resources[i];
            if t.page == page && ((t.object.0 == object.0 && t.object.1 == object.1) || t.number
                == number) {
                r = true;
            }
            i += 1;
        }
        r
    }

    /// Whether nothing but the resource names, the buffered runs and the
    /// buffered operators differs from `before`.
    pub open(crate) spec fn only_page_notes_changed(&self, before: PdfDocument) -> bool {
        &&& self.inner == before.inner
        &&& self.fonts == before.fonts
        &&& self.family() == before.family()
        &&& self.weight() == before.weight()
        &&& self.style() == before.style()
        &&& self.font_size() == before.font_size()
        &&& self.text_color() == before.text_color()
        &&& self.images() == before.images()
        &&& self.embedded() == before.embedded()
        &&& self.counters() == before.counters()
    }

    /// Gives the page `copy` everything that is noted for the page
    /// `page`: the resource names of fonts and images, the buffered runs
    /// and the buffered operators.
    fn mirror_page(&mut self, page: usize, copy: usize)
        requires
            old(self).wf(),
        ensures
            final(self).wf(),
            final(self).only_page_notes_changed(*old(self)),
            final(self).font_tags() == mirrored_font_tags(
                old(self).font_tags(),
                old(self).font_tags().len() as int,
                page,
                copy,
            ),
            final(self).image_tags() == mirrored_image_tags(
                old(self).image_tags(),
                old(self).image_tags().len() as int,
                page,
                copy,
            ),
            final(self).ops() == mirrored_ops(
                old(self).ops(),
                old(self).ops().len() as int,
                page,
                copy,
            ),
            final(self).buffers() == (if buffered(old(self).buffers(), page).len() > 0 {
                assign(
                    old(self).buffers(),
                    copy,
                    buffered(old(self).buffers(), copy) + buffered(old(self).buffers(), page),
                )
            } else {
                old(self).buffers()
            }),
    {
        let ghost before = *self;
        let ghost font_tags = self.font_tags();
        let n = self.page_font_resources.len();
        let mut i: usize = 0;
        while i < n
            invariant
                i <= n,
                n == font_tags.len(),
                before == *old(self),
                before.wf(),
                font_tags == before.font_tags(),
                self.font_tags() == mirrored_font_tags(font_tags, i as int, page, copy),
                self.inner == before.inner,
                self.fonts == before.fonts,
                self.current_family == before.current_family,
                self.current_weight == before.current_weight,
                self.current_style == before.current_style,
                self.current_font_size == before.current_font_size,
                self.current_text_color == before.current_text_color,
                self.embedded_fonts == before.embedded_fonts,
                self.next_font_resource == before.next_font_resource,
                self.embedded_images == before.embedded_images,
                self.page_image_resources == before.page_image_resources,
                self.next_image_resource == before.next_image_resource,
                self.page_content_buffer == before.page_content_buffer,
                self.buffered_text_ops == before.buffered_text_ops,
            decreases n - i,
        {
            proof {
                lemma_mirrored_font_tags(font_tags, i as int, page, copy);
                assert(self.font_tags().take(font_tags.len() as int)[i as int]
                    == self.font_tags()[i as int]);
            }
            let t_page = self.page_font_resources[i].page;
            let t_font = self.page_font_resources[i].font;
            let t_number = self.page_font_resources[i].number;
            if t_page == page && !self.font_tag_clashes(copy, t_font, t_number) {
                self.page_font_resources.push(
                    FontTag { page: copy, font: t_font, number: t_number },
                );
            }
            i += 1;
        }
        let ghost image_tags = self.image_tags();
        let n = self.page_image_resources.len();
        let mut i: usize = 0;
        while i < n
            invariant
                i <= n,
                n == image_tags.len(),
                before == *old(self),
                before.wf(),
                image_tags == before.image_tags(),
                self.image_tags() == mirrored_image_tags(image_tags, i as int, page, copy),
                self.font_tags() == mirrored_font_tags(
                    font_tags,
                    font_tags.len() as int,
                    page,
                    copy,
                ),
                font_tags == before.font_tags(),
                self.inner == before.inner,
                self.fonts == before.fonts,
                self.current_family == before.current_family,
                self.current_weight == before.current_weight,
                self.current_style == before.current_style,
                self.current_font_size == before.current_font_size,
                self.current_text_color == before.current_text_color,
                self.embedded_fonts == before.embedded_fonts,
                self.next_font_resource == before.next_font_resource,
                self.embedded_images == before.embedded_images,
                self.next_image_resource == before.next_image_resource,
                self.page_content_buffer == before.page_content_buffer,
                self.buffered_text_ops == before.buffered_text_ops,
            decreases n - i,
        {
            proof {
                lemma_mirrored_image_tags(image_tags, i as int, page, copy);
                assert(self.image_tags().take(image_tags.len() as int)[i as int]
                    == self.image_tags()[i as int]);
            }
            let t_page = self.page_image_resources[i].page;
            let t_object = self.page_image_resources[i].object;
            let t_number = self.page_image_resources[i].number;
            if t_page == page && !self.image_tag_clashes(copy, t_object, t_number) {
                self.page_image_resources.push(
                    ImageTag { page: copy, number: t_number, object: t_object },
                );
            }
            i += 1;
        }
        let ghost ops = self.ops();
        let n = self.buffered_text_ops.len();
        proof {
            assert forall|j: int, k: int|
                0 <= j < self.ops().len() && 0 <= k
                    < self.ops()[j].text@.len() implies self.fonts.spec_variants()[self.ops()[j].font as int].used().contains(
                #[trigger] self.ops()[j].text@[k],
            ) by {
                assert(before.fonts.spec_variants()[before.ops()[j].font as int].used().contains(
                    before.ops()[j].text@[k],
                ));
            }
            assert forall|j: int| 0 <= j < self.ops().len() implies (#[trigger] self.ops()[j]).font
                < self.fonts.spec_variants().len() by {
                assert(before.ops()[j].font < before.fonts.spec_variants().len());
            }
        }
        let mut i: usize = 0;
        while i < n
            invariant
                i <= n,
                n == ops.len(),
                before == *old(self),
                before.wf(),
                ops == before.ops(),
                self.ops() == mirrored_ops(ops, i as int, page, copy),
                ops.len() <= self.ops().len(),
                forall|j: int| 0 <= j < ops.len() ==> (#[trigger] self.ops()[j]) == ops[j],
                self.image_tags() == mirrored_image_tags(
                    image_tags,
                    image_tags.len() as int,
                    page,
                    copy,
                ),
                image_tags == before.image_tags(),
                self.font_tags() == mirrored_font_tags(
                    font_tags,
                    font_tags.len() as int,
                    page,
                    copy,
                ),
                font_tags == before.font_tags(),
                self.inner == before.inner,
                self.fonts == before.fonts,
                self.current_family == before.current_family,
                self.current_weight == before.current_weight,
                self.current_style == before.current_style,
                self.current_font_size == before.current_font_size,
                self.current_text_color == before.current_text_color,
                self.embedded_fonts == before.embedded_fonts,
                self.next_font_resource == before.next_font_resource,
                self.embedded_images == before.embedded_images,
                self.next_image_resource == before.next_image_resource,
                self.page_content_buffer == before.page_content_buffer,
                self.chars_covered(),
            decreases n - i,
        {
            let ghost so_far = self.ops();
            if self.buffered_text_ops[i].page == page {
                let op = &self.buffered_text_ops[i];
                let mirrored = BufferedTextOp {
                    text: op.text.clone(),
                    font: op.font,
                    tag: op.tag,
                    page: copy,
                    x: op.x,
                    y: op.y,
                    font_size: op.font_size,
                    color: op.color,
                };
                self.buffered_text_ops.push(mirrored);
                proof {
                    let src = ops[i as int];
                    assert(so_far[i as int] == src);
                    assert forall|j: int, k: int|
                        0 <= j < self.ops().len() && 0 <= k
                            < self.ops()[j].text@.len() implies self.fonts.spec_variants()[self.ops()[j].font as int].used().contains(
                        #[trigger] self.ops()[j].text@[k],
                    ) by {
                        if j < so_far.len() {
                            assert(self.ops()[j] == so_far[j]);
                            assert(self.fonts.spec_variants()[so_far[j].font as int].used().contains(
                                so_far[j].text@[k],
                            ));
                        } else {
                            assert(self.fonts.spec_variants()[src.font as int].used().contains(
                                src.text@[k],
                            ));
                        }
                    }
                    assert forall|j: int| 0 <= j < self.ops().len() implies (
                    #[trigger] self.ops()[j]).font < self.fonts.spec_variants().len() by {
                        if j < so_far.len() {
                            assert(self.ops()[j] == so_far[j]);
                        }
                    }
                }
            }
            i += 1;
        }
        let wanted = self.buffer_position(page);
        if wanted < self.page_content_buffer.len() && self.page_content_buffer[wanted].1.len()
            > 0 {
            let content = copy_bytes(self.page_content_buffer[wanted].1.as_slice());
            let ghost middle = *self;
            self.buffer_content(copy, content.as_slice());
        }
        proof {
            lemma_mirrored_font_tags(font_tags, font_tags.len() as int, page, copy);
            lemma_mirrored_image_tags(image_tags, image_tags.len() as int, page, copy);
            let ft = self.font_tags();
            assert forall|i: int| 0 <= i < ft.len() implies (#[trigger] ft[i]).number
                < self.next_font_resource && ft[i].font < self.fonts.spec_variants().len() by {
                if i < font_tags.len() {
                    assert(ft.take(font_tags.len() as int)[i] == ft[i]);
                    assert(before.font_tags()[i].number < before.next_font_resource);
                } else {
                    let k = choose|k: int|
                        0 <= k < font_tags.len() && font_tags[k].page == page
                            && #[trigger] font_tags[k].font == ft[i].font && font_tags[k].number
                            == ft[i].number;
                    assert(before.font_tags()[k].number < before.next_font_resource);
                }
            }
            let it = self.image_tags();
            assert forall|i: int| 0 <= i < it.len() implies (#[trigger] it[i]).number
                < self.next_image_resource by {
                if i < image_tags.len() {
                    assert(it.take(image_tags.len() as int)[i] == it[i]);
                    assert(before.image_tags()[i].number < before.next_image_resource);
                } else {
                    let k = choose|k: int|
                        0 <= k < image_tags.len() && image_tags[k].page == page
                            && #[trigger] image_tags[k].object == it[i].object
                            && image_tags[k].number == it[i].number;
                    assert(before.image_tags()[k].number < before.next_image_resource);
                }
            }
        }
    }
}


impl PdfDocument {
    /// Whether nothing but the object graph differs from `before`.
    pub open(crate) spec fn only_graph_changed(&self, before: PdfDocument) -> bool {
        &&& self.text_kept(before)
        &&& self.images() == before.images()
        &&& self.image_tags() == before.image_tags()
        &&& self.buffers() == before.buffers()
        &&& self.counters() == before.counters()
    }

    /// A document whose graph changed and is well formed is as
    /// consistent as it was.
    pub(crate) proof fn lemma_graph_changed(self, before: PdfDocument)
        requires
            before.wf(),
            self.inner.wf(),
            self.only_graph_changed(before),
        ensures
            self.wf(),
    {
        assert forall|i: int, k: int|
            0 <= i < self.ops().len() && 0 <= k
                < self.ops()[i].text@.len() implies self.fonts.spec_variants()[self.ops()[i].font as int].used().contains(
            #[trigger] self.ops()[i].text@[k],
        ) by {
            assert(before.fonts.spec_variants()[before.ops()[i].font as int].used().contains(
                before.ops()[i].text@[k],
            ));
        }
        assert forall|i: int| 0 <= i < self.ops().len() implies (#[trigger] self.ops()[i]).font
            < self.fonts.spec_variants().len() by {
            assert(before.ops()[i].font < before.fonts.spec_variants().len());
        }
        self.lemma_tags_kept(before);
    }

    /// Adds a blank A4 page with an empty content stream at the end of
    /// the document and returns its page number.
    pub fn add_blank_page(&mut self) -> (r: Result<usize, PdfError>)
        requires
            old(self).wf(),
        ensures
            final(self).wf(),
            final(self).only_graph_changed(*old(self)),
            match r {
                Ok(n) => {
                    &&& n == pages_of(old(self).graph()@).len() + 1
                    &&& last_page_added(
                        old(self).graph()@,
                        final(self).graph()@,
                        ((old(self).graph()@.max_id + 2) as u32, 0u16),
                    )
                    &&& growable_root(old(self).graph()@) matches Some((root_id, root))
                    &&& old(self).graph()@.max_id <= u32::MAX - 2
                    &&& final(self).graph()@.objects == assign(
                        assign(
                            assign(
                                old(self).graph()@.objects,
                                ((old(self).graph()@.max_id + 1) as u32, 0u16),
                                crate::pages::bare_stream(Seq::empty()),
                            ),
                            ((old(self).graph()@.max_id + 2) as u32, 0u16),
                            Value::Dictionary(
                                crate::pages::blank_page(
                                    root_id,
                                    ((old(self).graph()@.max_id + 1) as u32, 0u16),
                                ),
                            ),
                        ),
                        root_id,
                        Value::Dictionary(
                            crate::pages::grown(
                                root,
                                ((old(self).graph()@.max_id + 2) as u32, 0u16),
                            ),
                        ),
                    )
                },
                Err(e) => *final(self) == *old(self) && (if pages_of(old(self).graph()@).len()
                    == usize::MAX {
                    e is LopdfError
                } else if growable_root(old(self).graph()@) is None {
                    e is ParseError
                } else {
                    old(self).graph()@.max_id > u32::MAX - 2 && e is LopdfError
                }),
            },
    {
        let count = self.page_count();
        if count == usize::MAX {
            return Err(PdfError::LopdfError("page numbers are used up".to_owned()));
        }
        let ghost before = *self;
        self.inner.add_blank_page()?;
        proof {
            self.lemma_graph_changed(before);
        }
        Ok(count + 1)
    }

    /// Appends a copy of the page `page` and returns the number of the
    /// copy. The copy gets its own content streams, and what is noted for
    /// the page and not yet written is noted for the copy as well: the
    /// resource names of fonts and images, the buffered runs of text and
    /// the buffered operators.
    pub fn duplicate_page(&mut self, page: usize) -> (r: Result<usize, PdfError>)
        requires
            old(self).wf(),
        ensures
            final(self).wf(),
            final(self).registry() == old(self).registry(),
            final(self).family() == old(self).family(),
            final(self).weight() == old(self).weight(),
            final(self).style() == old(self).style(),
            final(self).font_size() == old(self).font_size(),
            final(self).text_color() == old(self).text_color(),
            final(self).images() == old(self).images(),
            final(self).embedded() == old(self).embedded(),
            final(self).counters() == old(self).counters(),
            match r {
                Ok(n) => {
                    &&& n == pages_of(old(self).graph()@).len() + 1
                    &&& page_at(old(self).graph()@, page as int) matches Some(source)
                    &&& dictionary_at(old(self).graph()@.objects, source) matches Some(d)
                    &&& growable_root(old(self).graph()@) matches Some((root_id, root))
                    &&& final(self).graph()@.objects == with_page_copy(
                        old(self).graph()@,
                        d,
                        root_id,
                        root,
                    )
                    &&& last_page_added(
                        old(self).graph()@,
                        final(self).graph()@,
                        crate::pages::copy_id(old(self).graph()@, d),
                    )
                    &&& final(self).graph()@.trailer == old(self).graph()@.trailer
                    &&& final(self).font_tags() == mirrored_font_tags(
                        old(self).font_tags(),
                        old(self).font_tags().len() as int,
                        page,
                        n,
                    )
                    &&& final(self).image_tags() == mirrored_image_tags(
                        old(self).image_tags(),
                        old(self).image_tags().len() as int,
                        page,
                        n,
                    )
                    &&& final(self).ops() == mirrored_ops(
                        old(self).ops(),
                        old(self).ops().len() as int,
                        page,
                        n,
                    )
                    &&& final(self).buffers() == (if buffered(old(self).buffers(), page).len()
                        > 0 {
                        assign(
                            old(self).buffers(),
                            n,
                            buffered(old(self).buffers(), n) + buffered(
                                old(self).buffers(),
                                page,
                            ),
                        )
                    } else {
                        old(self).buffers()
                    })
                },
                Err(e) => *final(self) == *old(self) && (match page_at(
                    old(self).graph()@,
                    page as int,
                ) {
                    None => e matches PdfError::InvalidPage(p, n) && p == page && n == pages_of(
                        old(self).graph()@,
                    ).len(),
                    Some(source) => if pages_of(old(self).graph()@).len() == usize::MAX {
                        e is LopdfError
                    } else {
                        copy_refused(old(self).graph()@, source, e)
                    },
                }),
            },
    {
        let count = self.page_count();
        let source = match self.inner.page_id(page) {
            Some(id) => id,
            None => {
                return Err(PdfError::InvalidPage(page, count));
            },
        };
        if count == usize::MAX {
            return Err(PdfError::LopdfError("page numbers are used up".to_owned()));
        }
        let ghost before = *self;
        self.inner.duplicate_page(source)?;
        let ghost copied = self.inner@;
        proof {
            self.lemma_graph_changed(before);
            let s = before.inner@;
            let d = dictionary_at(s.objects, source)->Some_0;
            if lookup(d, nm("Type")) != Some(Value::Name(nm("Page"))) {
                assert forall|catalog: ObjectId, root_id: ObjectId| !#[trigger] plain_tree(
                    s,
                    catalog,
                    root_id,
                ) by {
                    if plain_tree(s, catalog, root_id) {
                        law_plain_pages(s, catalog, root_id);
                        let kids = crate::tree::root_kids(s, root_id);
                        assert(crate::tree::plain_page(s.objects, kids[page - 1], root_id));
                        let e = lookup(s.objects, source)->Some_0->Dictionary_0;
                        assert(crate::store::resolve(
                            s.objects,
                            Value::Dictionary(e),
                            crate::store::DEREF_LIMIT as nat,
                        ) == Some(Value::Dictionary(e)));
                    }
                }
            }
        }
        self.mirror_page(page, count + 1);
        assert(self.inner@ == copied);
        Ok(count + 1)
    }
}


/// The bytes of the resource name `F<number>`.
pub open spec fn font_resource(number: u32) -> Seq<u8> {
    vstd::utf8::encode_utf8("F"@ + decimal_chars(number as nat))
}

/// The operators that show one buffered run with the fonts as they are.
pub open spec fn run_operators(variants: Seq<FontData>, op: BufferedTextOp) -> Seq<u8> {
    let font = variants[op.font as int];
    text_operators(
        vstd::utf8::encode_utf8(
            seq!['<'] + hex_run(|c: char| font.spec_encoded_gid(c), op.text@) + seq!['>'],
        ),
        op.x,
        op.y,
        Align::Left,
        font_resource(op.tag),
        op.font_size,
        Fixed { micros: font.spec_width_points(op.text@, op.font_size) },
        op.color,
    )
}

/// The buffered operators after the first `n` buffered runs were encoded
/// and added to the operators of their pages, in the order of the runs.
pub open spec fn encoded_buffers(
    buffers: Seq<(usize, Seq<u8>)>,
    variants: Seq<FontData>,
    ops: Seq<BufferedTextOp>,
    n: int,
) -> Seq<(usize, Seq<u8>)>
    decreases n,
{
    if n <= 0 {
        buffers
    } else {
        let before = encoded_buffers(buffers, variants, ops, n - 1);
        let op = ops[n - 1];
        assign(before, op.page, buffered(before, op.page) + run_operators(variants, op))
    }
}

impl PdfDocument {
    /// Whether the graph, the resource names and the buffers are those of
    /// `before`, and the fonts differ in their subsets at most.
    pub open(crate) spec fn only_subsets_changed(&self, before: PdfDocument) -> bool {
        &&& self.inner == before.inner
        &&& self.family() == before.family()
        &&& self.weight() == before.weight()
        &&& self.style() == before.style()
        &&& self.font_size() == before.font_size()
        &&& self.text_color() == before.text_color()
        &&& self.ops() == before.ops()
        &&& self.font_tags() == before.font_tags()
        &&& self.image_tags() == before.image_tags()
        &&& self.images() == before.images()
        &&& self.embedded() == before.embedded()
        &&& self.buffers() == before.buffers()
        &&& self.counters() == before.counters()
        &&& self.fonts.spec_families() == before.fonts.spec_families()
        &&& self.fonts.spec_fallbacks() == before.fonts.spec_fallbacks()
        &&& self.fonts.spec_variants().len() == before.fonts.spec_variants().len()
        &&& forall|j: int|
            0 <= j < before.fonts.spec_variants().len() ==> same_font(
                before.fonts.spec_variants()[j],
                #[trigger] self.fonts.spec_variants()[j],
            ) && self.fonts.spec_variants()[j].used() == before.fonts.spec_variants()[j].used()
    }

    /// Whether every font that has a face and used characters has the
    /// subset for exactly these characters.
    pub open(crate) spec fn subsets_current(&self) -> bool {
        forall|j: int|
            0 <= j < self.fonts.spec_variants().len() && (
            #[trigger] self.fonts.spec_variants()[j]).wants_subset()
                ==> self.fonts.spec_variants()[j].subset_current()
    }

    /// Whether every font of which no glyph is written has the subset
    /// that it had in `before`.
    pub open(crate) spec fn subsets_kept(&self, before: PdfDocument) -> bool {
        forall|j: int|
            0 <= j < before.fonts.spec_variants().len() && !(#[trigger] before.fonts.spec_variants()[j]).is_used()
                ==> self.fonts.spec_variants()[j].spec_subset() == before.fonts.spec_variants()[j].spec_subset()
    }

    /// Whether the subset of every font is settled: made anew where one
    /// is wanted, gone where glyphs of the font are written and none can
    /// be made, and as in `before` where no glyph of the font is written.
    pub open(crate) spec fn subsets_settled(&self, before: PdfDocument) -> bool {
        forall|j: int|
            0 <= j < before.fonts.spec_variants().len() ==> subset_settled(
                #[trigger] before.fonts.spec_variants()[j],
                self.fonts.spec_variants()[j],
            )
    }

    /// Makes the subsets of all fonts from which characters were used and
    /// whose files can be handed to the subsetter. A font whose file
    /// cannot is left without a subset; a font from which no character
    /// was used keeps the subset it had.
    pub fn subset_fonts(&mut self) -> (r: Result<(), PdfError>)
        requires
            old(self).wf(),
        ensures
            final(self).wf(),
            final(self).only_subsets_changed(*old(self)),
            match r {
                Ok(_) => final(self).subsets_current(),
                Err(e) => e is FontSubsetError,
            },
            r is Err <==> any_subset_fails(old(self).registry().spec_variants()),
            final(self).subsets_kept(*old(self)),
            r is Ok ==> final(self).subsets_settled(*old(self)),
    {
        let ghost before = *self;
        let r = self.fonts.subset_all();
        proof {
            assert(self.fonts.family_names() =~= before.fonts.family_names());
            assert forall|i: int, k: int|
                0 <= i < self.ops().len() && 0 <= k
                    < self.ops()[i].text@.len() implies self.fonts.spec_variants()[self.ops()[i].font as int].used().contains(
                #[trigger] self.ops()[i].text@[k],
            ) by {
                let j = before.ops()[i].font as int;
                assert(j < before.fonts.spec_variants().len());
                assert(before.fonts.spec_variants()[j].used().contains(before.ops()[i].text@[k]));
                assert(same_font(before.fonts.spec_variants()[j], self.fonts.spec_variants()[j]));
            }
            assert forall|i: int| 0 <= i < self.ops().len() implies (#[trigger] self.ops()[i]).font
                < self.fonts.spec_variants().len() by {
                assert(before.ops()[i].font < before.fonts.spec_variants().len());
            }
            self.lemma_tags_kept(before);
        }
        r
    }

    /// Whether nothing but the buffered runs and the buffered operators
    /// differs from `before`.
    pub open(crate) spec fn only_buffered_changed(&self, before: PdfDocument) -> bool {
        &&& self.inner == before.inner
        &&& self.fonts == before.fonts
        &&& self.family() == before.family()
        &&& self.weight() == before.weight()
        &&& self.style() == before.style()
        &&& self.font_size() == before.font_size()
        &&& self.text_color() == before.text_color()
        &&& self.font_tags() == before.font_tags()
        &&& self.image_tags() == before.image_tags()
        &&& self.images() == before.images()
        &&& self.embedded() == before.embedded()
        &&& self.counters() == before.counters()
    }

    /// Turns the buffered runs of text into operators, in the order in
    /// which they were buffered, and adds them to the operators of their
    /// pages. Glyph ids are those of the subsets where subsets were made.
    pub fn encode_buffered_text(&mut self)
        requires
            old(self).wf(),
        ensures
            final(self).wf(),
            final(self).only_buffered_changed(*old(self)),
            final(self).ops().len() == 0,
            final(self).buffers() == encoded_buffers(
                old(self).buffers(),
                old(self).registry().spec_variants(),
                old(self).ops(),
                old(self).ops().len() as int,
            ),
    {
        let mut ops: Vec<BufferedTextOp> = Vec::new();
        std::mem::swap(&mut ops, &mut self.buffered_text_ops);
        let ghost before = *old(self);
        let ghost variants = before.fonts.spec_variants();
        proof {
            self.lemma_ops_dropped(before);
        }
        let mut i: usize = 0;
        while i < ops.len()
            invariant
                i <= ops.len(),
                ops@ == before.ops(),
                before.wf(),
                variants == before.fonts.spec_variants(),
                self.wf(),
                self.only_buffered_changed(before),
                self.ops().len() == 0,
                self.buffers() == encoded_buffers(before.buffers(), variants, ops@, i as int),
            decreases ops.len() - i,
        {
            let op = &ops[i];
            assert(before.ops()[i as int].font < variants.len());
            let font = self.fonts.variant(op.font);
            let hex = font.encode_text_hex_remapped(op.text.as_str());
            let width = font.text_width_points(op.text.as_str(), op.font_size);
            let ctx = TextRenderContext {
                font_name: resource_name("F", op.tag),
                font_size: op.font_size,
                text_width: width,
                color: op.color,
            };
            let operators = generate_text_operators(hex.as_str(), op.x, op.y, Align::Left, &ctx);
            assert(operators@ == run_operators(variants, *op));
            self.buffer_content(op.page, operators.as_slice());
            i += 1;
        }
    }

    /// A document whose buffered runs were taken away is as consistent
    /// as it was.
    pub(crate) proof fn lemma_ops_dropped(self, before: PdfDocument)
        requires
            before.wf(),
            self.only_buffered_changed(before),
            self.ops().len() == 0,
        ensures
            self.wf(),
    {
        self.lemma_tags_kept(before);
    }
}


/// The graph after the operators `content` were written into the page
/// `page`: the page gets one content stream that holds what it had so far
/// followed by the operators. Nothing changes where there are no
/// operators; `None` where the page or an object number is missing.
pub open spec fn flush_one(store: StoreView, page: usize, content: Seq<u8>) -> Option<StoreView> {
    if content.len() == 0 {
        Some(store)
    } else {
        match page_at(store, page as int) {
            Some(page_id) => match dictionary_at(store.objects, page_id) {
                Some(dict) => if store.max_id < u32::MAX {
                    let id = ((store.max_id + 1) as u32, 0u16);
                    Some(
                        StoreView {
                            objects: assign(
                                assign(
                                    store.objects,
                                    id,
                                    bare_stream(existing_content(store.objects, dict) + content),
                                ),
                                page_id,
                                Value::Dictionary(
                                    assign(dict, nm("Contents"), Value::Reference(id)),
                                ),
                            ),
                            trailer: store.trailer,
                            max_id: if page_id.0 > id.0 {
                                page_id.0
                            } else {
                                id.0
                            },
                        },
                    )
                } else {
                    None
                },
                None => None,
            },
            None => None,
        }
    }
}

/// The graph after the first `n` buffers were written into their pages.
pub open spec fn flushed(store: StoreView, buffers: Seq<(usize, Seq<u8>)>, n: int) -> Option<
    StoreView,
>
    decreases n,
{
    if n <= 0 {
        Some(store)
    } else {
        match flushed(store, buffers, n - 1) {
            Some(s) => flush_one(s, buffers[n - 1].0, buffers[n - 1].1),
            None => None,
        }
    }
}

impl PdfDocument {
    /// Whether nothing but the graph and the buffered operators differs
    /// from `before`.
    pub open(crate) spec fn only_flushed(&self, before: PdfDocument) -> bool {
        &&& self.text_kept(before)
        &&& self.images() == before.images()
        &&& self.image_tags() == before.image_tags()
        &&& self.counters() == before.counters()
    }

    /// Writes the buffered operators into their pages: each page with
    /// operators gets one new content stream that holds what the page had
    /// so far, decompressed, followed by the operators. Stops at the first
    /// page that cannot be written; the buffers are gone either way.
    pub fn flush_content_buffers(&mut self) -> (r: Result<(), PdfError>)
        requires
            old(self).wf(),
        ensures
            final(self).wf(),
            final(self).only_flushed(*old(self)),
            final(self).buffers().len() == 0,
            match r {
                Ok(_) => flushed(
                    old(self).graph()@,
                    old(self).buffers(),
                    old(self).buffers().len() as int,
                ) == Some(final(self).graph()@),
                Err(e) => flushed(
                    old(self).graph()@,
                    old(self).buffers(),
                    old(self).buffers().len() as int,
                ) is None && (e is InvalidPage || e is LopdfError || e is ParseError),
            },
    {
        let mut buffers: Vec<(usize, Vec<u8>)> = Vec::new();
        std::mem::swap(&mut buffers, &mut self.page_content_buffer);
        let ghost before = *old(self);
        let ghost start = before.inner@;
        let ghost views = before.buffers();
        proof {
            self.lemma_buffers_dropped(before);
        }
        let mut i: usize = 0;
        while i < buffers.len()
            invariant
                i <= buffers.len(),
                buffers@.len() == views.len(),
                forall|j: int|
                    0 <= j < views.len() ==> (#[trigger] views[j]) == (
                        buffers@[j].0,
                        buffers@[j].1@,
                    ),
                before.wf(),
                before == *old(self),
                views == before.buffers(),
                start == before.inner@,
                self.wf(),
                self.only_flushed(before),
                self.buffers().len() == 0,
                flushed(start, views, i as int) == Some(self.inner@),
            decreases buffers.len() - i,
        {
            let page = buffers[i].0;
            assert(views[i as int] == (buffers@[i as int].0, buffers@[i as int].1@));
            if buffers[i].1.len() > 0 {
                let count = self.page_count();
                let page_id = match self.inner.page_id(page) {
                    Some(id) => id,
                    None => {
                        proof {
                            lemma_flush_fails(start, views, i as int + 1);
                        }
                        return Err(PdfError::InvalidPage(page, count));
                    },
                };
                let ghost middle = *self;
                match self.inner.append_to_content_stream(page_id, buffers[i].1.as_slice()) {
                    Ok(_) => {
                        proof {
                            self.lemma_graph_changed(middle);
                        }
                    },
                    Err(e) => {
                        proof {
                            lemma_flush_fails(start, views, i as int + 1);
                        }
                        return Err(e);
                    },
                }
            }
            i += 1;
        }
        Ok(())
    }

    /// A document whose buffered operators were taken away is as
    /// consistent as it was.
    pub(crate) proof fn lemma_buffers_dropped(self, before: PdfDocument)
        requires
            before.wf(),
            self.inner == before.inner,
            self.only_flushed(before),
        ensures
            self.wf(),
    {
        self.lemma_wf_frame(before);
    }
}

/// Once one buffer cannot be written, the rest cannot either.
pub proof fn lemma_flush_fails(store: StoreView, buffers: Seq<(usize, Seq<u8>)>, n: int)
    requires
        0 <= n <= buffers.len(),
        flushed(store, buffers, n) is None,
    ensures
        flushed(store, buffers, buffers.len() as int) is None,
    decreases buffers.len() - n,
{
    if n < buffers.len() {
        lemma_flush_fails(store, buffers, n + 1);
    }
}


/// The five objects that embed a font when they are stored under the
/// object numbers from `first` on: the font file, the font descriptor that
/// refers to it, the CIDFontType2 font that refers to the descriptor, the
/// character map, and the Type0 font that refers to both of these.
pub open spec fn font_group(font: FontData, first: int) -> Seq<Value> {
    let name = vstd::utf8::encode_utf8(font.spec_name());
    let map = vstd::utf8::encode_utf8(cmap_text(font.cmap_entries()));
    seq![
        Value::Stream(font_file_entries(font.embedded_file().len()), font.embedded_file()),
        Value::Dictionary(
            assign(
                descriptor_entries(
                    name,
                    font.spec_units_per_em(),
                    font.spec_ascender(),
                    font.spec_descender(),
                ),
                nm("FontFile2"),
                Value::Reference((first as u32, 0u16)),
            ),
        ),
        Value::Dictionary(
            assign(
                cid_font_entries(name, widths_value(font.spec_widths())),
                nm("FontDescriptor"),
                Value::Reference(((first + 1) as u32, 0u16)),
            ),
        ),
        Value::Stream(tounicode_entries(map.len()), map),
        Value::Dictionary(
            assign(
                assign(
                    type0_entries(name),
                    nm("DescendantFonts"),
                    Value::Array(seq![Value::Reference(((first + 2) as u32, 0u16))]),
                ),
                nm("ToUnicode"),
                Value::Reference(((first + 3) as u32, 0u16)),
            ),
        ),
    ]
}

/// Links the five objects that embed a font for the object numbers from
/// `first` on, in the order in which they are stored.
#[verifier::rlimit(50)]
pub fn link_font_objects(font: &FontData, first: u32) -> (r: Vec<Object>)
    requires
        first <= u32::MAX - 4,
    ensures
        r@.len() == 5,
        forall|i: int| 0 <= i < 5 ==> (#[trigger] r@[i])@ == font_group(*font, first as int)[i],
{
    let ghost group = font_group(*font, first as int);
    let objects = font.pdf_objects();
    let crate::font::FontObjects {
        type0_font,
        cid_font,
        font_descriptor,
        font_file_stream,
        tounicode_stream,
    } = objects;
    let mut out: Vec<Object> = Vec::new();
    let file = Object::Stream(font_file_stream);
    assert(file@ == group[0]);
    out.push(file);
    let descriptor = link_entry(font_descriptor, "FontFile2", Object::Reference((first, 0u16)));
    assert(descriptor@ == group[1]);
    out.push(descriptor);
    let cid = link_entry(cid_font, "FontDescriptor", Object::Reference((first + 1, 0u16)));
    assert(cid@ == group[2]);
    out.push(cid);
    let tounicode = Object::Stream(tounicode_stream);
    assert(tounicode@ == group[3]);
    out.push(tounicode);
    let mut descendants: Vec<Object> = Vec::new();
    descendants.push(Object::Reference((first + 2, 0u16)));
    let descendants = crate::object::array_of(descendants);
    assert(descendants@->Array_0 =~= seq![Value::Reference(((first + 2) as u32, 0u16))]);
    let mut type0_font = type0_font;
    type0_font.set_named("DescendantFonts", descendants);
    let type0 = link_entry(type0_font, "ToUnicode", Object::Reference((first + 3, 0u16)));
    assert(type0@ == group[4]);
    out.push(type0);
    out
}

fn link_entry(dict: crate::object::Dictionary, key: &str, value: Object) -> (r: Object)
    ensures
        r@ == Value::Dictionary(assign(dict@, nm(key), value@)),
{
    let mut dict = dict;
    dict.set_named(key, value);
    Object::Dictionary(dict)
}

impl PdfDocument {
    /// Writes the five objects that embed the font at place `v` into the
    /// graph and returns the id of its Type0 font.
    #[verifier::rlimit(50)]
    pub fn embed_font_object(&mut self, v: usize) -> (r: Result<ObjectId, PdfError>)
        requires
            old(self).wf(),
            v < old(self).registry().spec_variants().len(),
        ensures
            final(self).wf(),
            final(self).only_graph_changed(*old(self)),
            final(self).graph()@.trailer == old(self).graph()@.trailer,
            match r {
                Ok(id) => {
                    let first = old(self).graph()@.max_id + 1;
                    &&& first + 4 <= u32::MAX
                    &&& id == ((first + 4) as u32, 0u16)
                    &&& final(self).graph()@.max_id == first + 4
                    &&& final(self).graph()@.objects == with_objects(
                        old(self).graph()@.objects,
                        font_group(old(self).registry().spec_variants()[v as int], first),
                        first,
                        5,
                    )
                },
                Err(e) => *final(self) == *old(self) && old(self).graph()@.max_id > u32::MAX - 5
                    && e is LopdfError,
            },
    {
        if self.inner.max_id > u32::MAX - 5 {
            return Err(PdfError::LopdfError("object numbers are used up".to_owned()));
        }
        let ghost before = *self;
        let first = self.inner.max_id + 1;
        let group = link_font_objects(self.fonts.variant(v), first);
        let ghost views = font_group(before.fonts.spec_variants()[v as int], first as int);
        assert(Seq::new(group@.len(), |i: int| group@[i]@) =~= views);
        self.inner.add_objects(group);
        proof {
            self.lemma_graph_changed(before);
        }
        Ok((first + 4, 0))
    }
}


/// The graph and the embedded fonts after each of the first `n` fonts
/// from which characters were used was embedded, in their order. `None`
/// where the object numbers do not suffice.
pub open spec fn embed_all(store: StoreView, variants: Seq<FontData>, n: int) -> Option<
    (StoreView, Seq<(usize, ObjectId)>),
>
    decreases n,
{
    if n <= 0 {
        Some((store, Seq::empty()))
    } else {
        match embed_all(store, variants, n - 1) {
            Some((s, embedded)) => if variants[n - 1].used().len() == 0 {
                Some((s, embedded))
            } else if s.max_id > u32::MAX - 5 {
                None
            } else {
                Some(
                    (
                        StoreView {
                            objects: with_objects(
                                s.objects,
                                font_group(variants[n - 1], s.max_id + 1),
                                s.max_id + 1,
                                5,
                            ),
                            trailer: s.trailer,
                            max_id: (s.max_id + 5) as u32,
                        },
                        embedded.push(((n - 1) as usize, ((s.max_id + 5) as u32, 0u16))),
                    ),
                )
            },
            None => None,
        }
    }
}

/// The graph after the font of a resource name was written into the
/// resources of its page. `None` where the font is not embedded or the
/// page is missing.
pub open spec fn attach_one(store: StoreView, embedded: Seq<(usize, ObjectId)>, tag: FontTag) -> Option<
    StoreView,
> {
    match lookup(embedded, tag.font) {
        Some(font) => match page_at(store, tag.page as int) {
            Some(page_id) => match dictionary_at(store.objects, page_id) {
                Some(dict) => Some(
                    StoreView {
                        objects: assign(
                            store.objects,
                            page_id,
                            Value::Dictionary(
                                page_with_resources(
                                    store.objects,
                                    dict,
                                    nm("Font"),
                                    seq![(font_resource(tag.number), font)],
                                ),
                            ),
                        ),
                        trailer: store.trailer,
                        max_id: if page_id.0 > store.max_id {
                            page_id.0
                        } else {
                            store.max_id
                        },
                    },
                ),
                None => None,
            },
            None => None,
        },
        None => None,
    }
}

/// The graph after the fonts of the first `n` resource names were
/// written into the resources of their pages.
pub open spec fn attach_all(
    store: StoreView,
    embedded: Seq<(usize, ObjectId)>,
    tags: Seq<FontTag>,
    n: int,
) -> Option<StoreView>
    decreases n,
{
    if n <= 0 {
        Some(store)
    } else {
        match attach_all(store, embedded, tags, n - 1) {
            Some(s) => attach_one(s, embedded, tags[n - 1]),
            None => None,
        }
    }
}

pub proof fn lemma_embed_fails(store: StoreView, variants: Seq<FontData>, n: int)
    requires
        0 <= n <= variants.len(),
        embed_all(store, variants, n) is None,
    ensures
        embed_all(store, variants, variants.len() as int) is None,
    decreases variants.len() - n,
{
    if n < variants.len() {
        lemma_embed_fails(store, variants, n + 1);
    }
}

pub proof fn lemma_attach_fails(
    store: StoreView,
    embedded: Seq<(usize, ObjectId)>,
    tags: Seq<FontTag>,
    n: int,
)
    requires
        0 <= n <= tags.len(),
        attach_all(store, embedded, tags, n) is None,
    ensures
        attach_all(store, embedded, tags, tags.len() as int) is None,
    decreases tags.len() - n,
{
    if n < tags.len() {
        lemma_attach_fails(store, embedded, tags, n + 1);
    }
}

impl PdfDocument {
    /// Whether nothing but the graph and the list of embedded fonts
    /// differs from `before`.
    pub open(crate) spec fn only_embedding_changed(&self, before: PdfDocument) -> bool {
        &&& self.fonts == before.fonts
        &&& self.family() == before.family()
        &&& self.weight() == before.weight()
        &&& self.style() == before.style()
        &&& self.font_size() == before.font_size()
        &&& self.text_color() == before.text_color()
        &&& self.ops() == before.ops()
        &&& self.font_tags() == before.font_tags()
        &&& self.images() == before.images()
        &&& self.image_tags() == before.image_tags()
        &&& self.buffers() == before.buffers()
        &&& self.counters() == before.counters()
    }

    /// A document whose graph and list of embedded fonts changed is as
    /// consistent as it was where the graph is well formed.
    pub(crate) proof fn lemma_embedding_changed(self, before: PdfDocument)
        requires
            before.wf(),
            self.inner.wf(),
            self.only_embedding_changed(before),
        ensures
            self.wf(),
    {
        assert forall|i: int, k: int|
            0 <= i < self.ops().len() && 0 <= k
                < self.ops()[i].text@.len() implies self.fonts.spec_variants()[self.ops()[i].font as int].used().contains(
            #[trigger] self.ops()[i].text@[k],
        ) by {
            assert(before.fonts.spec_variants()[before.ops()[i].font as int].used().contains(
                before.ops()[i].text@[k],
            ));
        }
        assert forall|i: int| 0 <= i < self.ops().len() implies (#[trigger] self.ops()[i]).font
            < self.fonts.spec_variants().len() by {
            assert(before.ops()[i].font < before.fonts.spec_variants().len());
        }
        self.lemma_tags_kept(before);
    }

    /// Embeds every font from which characters were used. The fonts that
    /// were embedded before are forgotten, so that each is embedded with
    /// all the characters that are used now.
    pub fn embed_fonts(&mut self) -> (r: Result<(), PdfError>)
        requires
            old(self).wf(),
        ensures
            final(self).wf(),
            final(self).only_embedding_changed(*old(self)),
            match r {
                Ok(_) => embed_all(
                    old(self).graph()@,
                    old(self).registry().spec_variants(),
                    old(self).registry().spec_variants().len() as int,
                ) == Some((final(self).graph()@, final(self).embedded())),
                Err(e) => e is LopdfError && embed_all(
                    old(self).graph()@,
                    old(self).registry().spec_variants(),
                    old(self).registry().spec_variants().len() as int,
                ) is None,
            },
    {
        let ghost before = *self;
        let ghost start = before.inner@;
        let ghost variants = before.fonts.spec_variants();
        self.embedded_fonts = Vec::new();
        proof {
            self.lemma_embedding_changed(before);
        }
        let n = self.fonts.variant_count();
        let mut v: usize = 0;
        while v < n
            invariant
                v <= n,
                n == variants.len(),
                before == *old(self),
                before.wf(),
                start == before.inner@,
                variants == before.fonts.spec_variants(),
                self.wf(),
                self.only_embedding_changed(before),
                embed_all(start, variants, v as int) == Some((self.inner@, self.embedded())),
            decreases n - v,
        {
            if self.fonts.variant(v).used_chars().len() > 0 {
                let ghost middle = *self;
                match self.embed_font_object(v) {
                    Ok(id) => {
                        self.embedded_fonts.push((v, id));
                        proof {
                            let shown = *self;
                            shown.lemma_embedding_changed(before);
                        }
                    },
                    Err(e) => {
                        proof {
                            lemma_embed_fails(start, variants, v as int + 1);
                        }
                        return Err(e);
                    },
                }
            }
            v += 1;
        }
        Ok(())
    }
}


impl PdfDocument {
    fn embedded_position(&self, font: usize) -> (i: usize)
        ensures
            i == find(self.embedded(), font, 0),
            i <= self.embedded().len(),
    {
        let mut i: usize = 0;
        while i < self.embedded_fonts.len()
            invariant
                i <= self.embedded_fonts.len(),
                forall|j: int| 0 <= j < i ==> (#[trigger] self.embedded()[j]).0 != font,
            decreases self.embedded_fonts.len() - i,
        {
            if self.embedded_fonts[i].0 == font {
                proof {
                    lemma_find_unique(self.embedded(), font, 0, i as int);
                }
                return i;
            }
            i += 1;
        }
        proof {
            lemma_find_unique(self.embedded(), font, 0, i as int);
        }
        i
    }

    /// Writes, for every resource name that a font has on a page, a
    /// reference to the embedded font into the resources of the page.
    /// Stops at the first name whose font is not embedded or whose page
    /// is missing.
    pub fn finalize_page_font_resources(&mut self) -> (r: Result<(), PdfError>)
        requires
            old(self).wf(),
        ensures
            final(self).wf(),
            final(self).only_graph_changed(*old(self)),
            match r {
                Ok(_) => attach_all(
                    old(self).graph()@,
                    old(self).embedded(),
                    old(self).font_tags(),
                    old(self).font_tags().len() as int,
                ) == Some(final(self).graph()@),
                Err(e) => attach_all(
                    old(self).graph()@,
                    old(self).embedded(),
                    old(self).font_tags(),
                    old(self).font_tags().len() as int,
                ) is None && (e is FontNotFound || e is InvalidPage || e is LopdfError
                    || e is SaveError),
            },
    {
        let ghost before = *self;
        let ghost start = before.inner@;
        let ghost tags = before.font_tags();
        let ghost embedded = before.embedded();
        let n = self.page_font_resources.len();
        let mut i: usize = 0;
        while i < n
            invariant
                i <= n,
                n == tags.len(),
                before == *old(self),
                before.wf(),
                start == before.inner@,
                tags == before.font_tags(),
                embedded == before.embedded(),
                self.wf(),
                self.only_graph_changed(before),
                attach_all(start, embedded, tags, i as int) == Some(self.inner@),
            decreases n - i,
        {
            let page = self.page_font_resources[i].page;
            let font = self.page_font_resources[i].font;
            let number = self.page_font_resources[i].number;
            let at = self.embedded_position(font);
            if at >= self.embedded_fonts.len() {
                proof {
                    lemma_attach_fails(start, embedded, tags, i as int + 1);
                }
                assert(font < self.fonts.spec_variants().len());
                return Err(PdfError::FontNotFound(self.fonts.variant(font).name().clone()));
            }
            let id = self.embedded_fonts[at].1;
            let count = self.page_count();
            let page_id = match self.inner.page_id(page) {
                Some(p) => p,
                None => {
                    proof {
                        lemma_attach_fails(start, embedded, tags, i as int + 1);
                    }
                    return Err(PdfError::InvalidPage(page, count));
                },
            };
            let mut adds: Vec<(Vec<u8>, ObjectId)> = Vec::new();
            adds.push((copy_bytes(resource_name("F", number).as_str().as_bytes()), id));
            assert(crate::pages::references_view(adds@) =~= seq![(font_resource(number), id)]);
            let ghost middle = *self;
            match self.inner.add_page_resources(page_id, "Font", &adds) {
                Ok(_) => {
                    proof {
                        self.lemma_graph_changed(middle);
                    }
                },
                Err(e) => {
                    proof {
                        lemma_attach_fails(start, embedded, tags, i as int + 1);
                    }
                    return Err(e);
                },
            }
            i += 1;
        }
        Ok(())
    }

    /// The graph that `finish` leaves: the buffered runs are encoded and,
    /// with the buffered operators, written into their pages; the fonts
    /// from which characters were used are embedded; and the pages refer
    /// to them under their resource names. `None` where a step fails.
    pub open(crate) spec fn finished_graph(&self, variants: Seq<FontData>) -> Option<StoreView> {
        let buffers = encoded_buffers(self.buffers(), variants, self.ops(), self.ops().len() as int);
        match flushed(self.inner@, buffers, buffers.len() as int) {
            Some(s1) => match embed_all(s1, variants, variants.len() as int) {
                Some((s2, embedded)) => attach_all(
                    s2,
                    embedded,
                    self.font_tags(),
                    self.font_tags().len() as int,
                ),
                None => None,
            },
            None => None,
        }
    }

    /// Whether `self` is `before` after it was finished: the fonts differ
    /// in their subsets at most, nothing is buffered any more, and the
    /// selection, the images and the resource names are as they were.
    pub open(crate) spec fn finished_from(&self, before: PdfDocument) -> bool {
        &&& self.family() == before.family()
        &&& self.weight() == before.weight()
        &&& self.style() == before.style()
        &&& self.font_size() == before.font_size()
        &&& self.text_color() == before.text_color()
        &&& self.font_tags() == before.font_tags()
        &&& self.image_tags() == before.image_tags()
        &&& self.images() == before.images()
        &&& self.counters() == before.counters()
        &&& self.fonts.spec_families() == before.fonts.spec_families()
        &&& self.fonts.spec_fallbacks() == before.fonts.spec_fallbacks()
        &&& self.fonts.spec_variants().len() == before.fonts.spec_variants().len()
        &&& forall|j: int|
            0 <= j < before.fonts.spec_variants().len() ==> same_font(
                before.fonts.spec_variants()[j],
                #[trigger] self.fonts.spec_variants()[j],
            ) && self.fonts.spec_variants()[j].used() == before.fonts.spec_variants()[j].used()
    }

    /// Writes everything that was registered and buffered into the object
    /// graph, so that the graph can be serialized: subsets the fonts,
    /// encodes the buffered text with the glyph ids of the subsets, gives
    /// each page with new content one content stream, embeds the fonts
    /// and attaches them to the pages, and removes the objects that
    /// cannot be reached from the trailer any more. After a failure the
    /// document should not be used further.
    #[verifier::rlimit(50)]
    pub fn finish(&mut self) -> (r: Result<(), PdfError>)
        requires
            old(self).wf(),
        ensures
            final(self).wf(),
            final(self).finished_from(*old(self)),
            match r {
                Ok(_) => {
                    &&& final(self).ops().len() == 0
                    &&& final(self).buffers().len() == 0
                    &&& final(self).subsets_current()
                    &&& final(self).subsets_settled(*old(self))
                    &&& old(self).finished_graph(final(self).registry().spec_variants()) matches Some(g)
                        && final(self).graph()@ == swept(g) && pages_of(final(self).graph()@)
                        == pages_of(g)
                    &&& no_orphans(final(self).graph()@)
                },
                Err(e) => if any_subset_fails(old(self).registry().spec_variants()) {
                    e is FontSubsetError
                } else {
                    old(self).finished_graph(final(self).registry().spec_variants()) is None && (e
                        is InvalidPage || e is LopdfError || e is ParseError || e is FontNotFound
                        || e is SaveError)
                },
            },
            r is Ok ==> !any_subset_fails(old(self).registry().spec_variants()),
    {
        let ghost before = *self;
        self.subset_fonts()?;
        let ghost subsetted = *self;
        self.encode_buffered_text();
        self.flush_content_buffers()?;
        self.embed_fonts()?;
        self.finalize_page_font_resources()?;
        self.inner.prune();
        Ok(())
    }
}

/// Every character of a buffered run of text is marked as used in the
/// font of the run.
pub proof fn law_used_characters(doc: PdfDocument, i: int, k: int)
    requires
        doc.wf(),
        0 <= i < doc.ops().len(),
        0 <= k < doc.ops()[i].text@.len(),
    ensures
        doc.ops()[i].font < doc.registry().spec_variants().len(),
        doc.registry().spec_variants()[doc.ops()[i].font as int].used().contains(
            doc.ops()[i].text@[k],
        ),
{
}

/// The runs that a text falls into with the selected font, joined, are
/// the text; no run is empty; and two runs that meet are set in different
/// fonts.
pub proof fn law_text_runs(doc: PdfDocument, text: Seq<char>)
    ensures
        crate::segment::joined(doc.text_runs(text)) == text,
        forall|i: int| 0 <= i < doc.text_runs(text).len() ==> (#[trigger] doc.text_runs(text)[i]).0.len() > 0,
        forall|i: int|
            0 <= i < doc.text_runs(text).len() - 1 ==> (#[trigger] doc.text_runs(text)[i]).1
                != doc.text_runs(text)[i + 1].1,
{
    crate::segment::law_segmentation(
        text,
        doc.registry().font_map(
            doc.selected_variant()->Some_0,
            doc.registry().chain_of(doc.family()->Some_0),
            doc.weight(),
            doc.style(),
        ),
    );
}

/// Two runs of a text that meet are set in fonts of different names.
pub proof fn law_run_names(doc: PdfDocument, text: Seq<char>, i: int)
    requires
        doc.wf(),
        doc.family() is Some,
        0 <= i < doc.text_runs(text).len() - 1,
    ensures
        0 <= doc.text_runs(text)[i].1 < doc.registry().spec_variants().len(),
        0 <= doc.text_runs(text)[i + 1].1 < doc.registry().spec_variants().len(),
        doc.registry().spec_variants()[doc.text_runs(text)[i].1].spec_name()
            != doc.registry().spec_variants()[doc.text_runs(text)[i + 1].1].spec_name(),
{
    let fonts = doc.registry();
    let primary = doc.selected_variant()->Some_0;
    let chain = fonts.chain_of(doc.family()->Some_0);
    let font_of = fonts.font_map(primary, chain, doc.weight(), doc.style());
    let runs = doc.text_runs(text);
    crate::segment::law_segmentation(text, font_of);
    doc.lemma_selected_in_range();
    assert(runs[i].0.len() > 0);
    assert(runs[i + 1].0.len() > 0);
    let a = runs[i].0[0];
    let b = runs[i + 1].0[0];
    assert(font_of(a) == runs[i].1);
    assert(font_of(b) == runs[i + 1].1);
    match chain {
        Some(names) => {
            fonts.lemma_fallback_in_range(names, 0, doc.weight(), doc.style(), a);
            fonts.lemma_fallback_in_range(names, 0, doc.weight(), doc.style(), b);
        },
        None => {},
    }
}

/// Finishing a document for which nothing was buffered, no character was
/// used and no font has a resource name writes nothing into the object
/// graph: what is left is the graph without the objects that cannot be
/// reached, and its pages are the pages of the document.
pub proof fn law_untouched_graph(doc: PdfDocument, variants: Seq<FontData>)
    requires
        doc.ops().len() == 0,
        doc.buffers().len() == 0,
        doc.font_tags().len() == 0,
        forall|j: int| 0 <= j < variants.len() ==> (#[trigger] variants[j]).used().len() == 0,
    ensures
        doc.finished_graph(variants) == Some(doc.graph()@),
        pages_of(swept(doc.graph()@)) == pages_of(doc.graph()@),
{
    lemma_nothing_embedded(doc.graph()@, variants, variants.len() as int);
    law_pages_kept(doc.graph()@);
}

/// Fonts from which no character was used are not embedded.
pub proof fn lemma_nothing_embedded(store: StoreView, variants: Seq<FontData>, n: int)
    requires
        0 <= n <= variants.len(),
        forall|j: int| 0 <= j < variants.len() ==> (#[trigger] variants[j]).used().len() == 0,
    ensures
        embed_all(store, variants, n) == Some((store, Seq::<(usize, ObjectId)>::empty())),
    decreases n,
{
    if n > 0 {
        lemma_nothing_embedded(store, variants, n - 1);
    }
}


impl PdfDocument {
    /// The runs of text that wait to be written.
    pub fn buffered_text_ops(&self) -> (r: &Vec<BufferedTextOp>)
        ensures
            r@ == self.ops(),
    {
        &self.buffered_text_ops
    }

    /// The registered fonts.
    pub fn fonts(&self) -> (r: &FontRegistry)
        ensures
            *r == self.registry(),
    {
        &self.fonts
    }

    /// The operators that wait to be written into the page.
    pub fn buffered_content(&self, page: usize) -> (r: Vec<u8>)
        ensures
            r@ == buffered(self.buffers(), page),
    {
        let i = self.buffer_position(page);
        if i < self.page_content_buffer.len() {
            copy_bytes(self.page_content_buffer[i].1.as_slice())
        } else {
            Vec::new()
        }
    }

    /// The resource names of fonts on pages.
    pub fn page_font_resources(&self) -> (r: &Vec<FontTag>)
        ensures
            r@ == self.font_tags(),
    {
        &self.page_font_resources
    }

    /// The resource names of images on pages.
    pub fn page_image_resources(&self) -> (r: &Vec<ImageTag>)
        ensures
            r@ == self.image_tags(),
    {
        &self.page_image_resources
    }

    /// The images that are embedded.
    pub fn embedded_images(&self) -> (r: &Vec<EmbeddedImage>)
        ensures
            r@ == self.images(),
    {
        &self.embedded_images
    }

    /// The fonts that are embedded, by their place in the registry, with
    /// the ids of their Type0 fonts.
    pub fn embedded_fonts(&self) -> (r: &Vec<(usize, ObjectId)>)
        ensures
            r@ == self.embedded(),
    {
        &self.embedded_fonts
    }

    /// The name of the selected family.
    pub fn current_family(&self) -> (r: &Option<String>)
        ensures
            name_view(*r) == self.family(),
    {
        &self.current_family
    }

    /// The selected font size.
    pub fn current_font_size(&self) -> (r: Fixed)
        ensures
            r == self.font_size(),
    {
        self.current_font_size
    }

    /// The selected weight.
    pub fn current_weight(&self) -> (r: FontWeight)
        ensures
            r == self.weight(),
    {
        self.current_weight
    }

    /// The selected style.
    pub fn current_style(&self) -> (r: FontStyle)
        ensures
            r == self.style(),
    {
        self.current_style
    }

    /// The selected colour of text.
    pub fn current_text_color(&self) -> (r: Color)
        ensures
            r == self.text_color(),
    {
        self.current_text_color
    }
}

} // verus!
