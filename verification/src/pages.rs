//! Pages of a document: finding them, their height, their content streams
//! and resources, and growing the page tree.

use vstd::prelude::*;
use vstd::string::StringSliceAdditionalSpecFns;
use crate::assoc::{assign, lemma_assign_lookup, lookup};
use crate::codec::{zlib_decompress, zlib_decompressed};
use crate::object::{
    array_of, array_view, bytes_eq, copy_bytes, entry, length_value, nm, Dictionary, Entries,
    Object, ObjectId, Stream, Value,
};
use crate::store::{
    dictionary_at, object_at, page_root, pages_of, resolve, with_objects, ObjectStore, Objects,
    StoreView, DEREF_LIMIT,
};
use crate::tree::{
    last_page_added, law_content_appended, law_copy_shows_the_same, law_last_page,
    law_plain_pages, shown_by_streams, lemma_fresh_id, lemma_type_is_not_contents,
    lemma_with_objects_lookup, page_appended, plain_tree,
};
use crate::units::{clamp_i64, Fixed};
use crate::PdfError;

verus! {

/// The height of an A4 page in millionths of a point.
pub const A4_HEIGHT_MICROS: i64 = 841_890_000;

/// The width of an A4 page in millionths of a point.
pub const A4_WIDTH_MICROS: i64 = 595_280_000;

/// How many dictionaries up the `Parent` chain a page box is looked for.
pub const PARENT_LIMIT: usize = 10;

/// An error that says the document's objects are not shaped as expected.
pub fn parse_error(msg: &str) -> (e: PdfError)
    ensures
        e matches PdfError::ParseError(m) && m@ == msg@,
{
    PdfError::ParseError(msg.to_owned())
}

/// An error that says an object that is referred to is missing: an error
/// of the object graph with the text `object not found`.
pub fn missing_object() -> (e: PdfError)
    ensures
        e matches PdfError::LopdfError(m) && m@ == "object not found"@,
{
    PdfError::LopdfError("object not found".to_owned())
}

/// The object id of the page with the given number, pages counted from one.
pub open spec fn page_at(store: StoreView, page: int) -> Option<ObjectId> {
    if 1 <= page <= pages_of(store).len() {
        Some(pages_of(store)[page - 1])
    } else {
        None
    }
}

/// What looking for a page's box gives.
pub enum BoxOutcome {
    /// The box as it is written.
    Found(Seq<Value>),
    /// No box up to the limit of the parent chain: A4 is assumed.
    Absent,
    /// An object on the way is missing.
    Missing,
    /// An object on the way is not what it must be.
    Malformed,
}

/// The `MediaBox` of a dictionary, or its `CropBox` where it has no `MediaBox`.
pub open spec fn box_entry(e: Entries) -> Option<Value> {
    match lookup(e, nm("MediaBox")) {
        Some(v) => Some(v),
        None => lookup(e, nm("CropBox")),
    }
}

/// The box of the dictionary `id` or of the nearest dictionary up its
/// `Parent` chain, looking at `levels` dictionaries at most.
pub open spec fn inherited_box(objs: Objects, id: ObjectId, levels: nat) -> BoxOutcome
    decreases levels,
{
    if levels == 0 {
        BoxOutcome::Absent
    } else {
        match object_at(objs, id) {
            None => BoxOutcome::Missing,
            Some(Value::Dictionary(e)) => match box_entry(e) {
                Some(Value::Array(items)) => BoxOutcome::Found(items),
                Some(Value::Reference(r)) => match object_at(objs, r) {
                    None => BoxOutcome::Missing,
                    Some(Value::Array(items)) => BoxOutcome::Found(items),
                    Some(_) => BoxOutcome::Malformed,
                },
                Some(_) => BoxOutcome::Malformed,
                None => match lookup(e, nm("Parent")) {
                    Some(Value::Reference(parent)) => inherited_box(
                        objs,
                        parent,
                        (levels - 1) as nat,
                    ),
                    _ => BoxOutcome::Absent,
                },
            },
            Some(_) => BoxOutcome::Malformed,
        }
    }
}

/// A number of a page box in millionths.
pub open spec fn number_micros(v: Value) -> Option<i64> {
    match v {
        Value::Real(f) => Some(f.micros),
        Value::Integer(i) => Some(clamp_i64(i * 1_000_000)),
        _ => None,
    }
}

/// The height that a page box states: its fourth number less its second.
pub open spec fn box_height(items: Seq<Value>) -> Option<i64> {
    if items.len() >= 4 {
        match (number_micros(items[1]), number_micros(items[3])) {
            (Some(y1), Some(y2)) => Some(clamp_i64(y2 - y1)),
            _ => None,
        }
    } else {
        None
    }
}

/// What asking for the height of a page gives.
pub enum HeightOutcome {
    Height(i64),
    Missing,
    Malformed,
}

/// The height of the page with object id `id`.
pub open spec fn page_height_of(objs: Objects, id: ObjectId) -> HeightOutcome {
    match inherited_box(objs, id, PARENT_LIMIT as nat) {
        BoxOutcome::Found(items) => match box_height(items) {
            Some(h) => HeightOutcome::Height(h),
            None => HeightOutcome::Malformed,
        },
        BoxOutcome::Absent => HeightOutcome::Height(A4_HEIGHT_MICROS),
        BoxOutcome::Missing => HeightOutcome::Missing,
        BoxOutcome::Malformed => HeightOutcome::Malformed,
    }
}

fn number_of(o: &Object) -> (r: Option<Fixed>)
    ensures
        match r {
            Some(f) => number_micros(o@) == Some(f.micros),
            None => number_micros(o@) is None,
        },
{
    match o {
        Object::Real(f) => Some(*f),
        Object::Integer(i) => {
            let wide: i128 = (*i as i128) * 1_000_000;
            if wide < -9_223_372_036_854_775_808i128 {
                Some(Fixed::from_micros(i64::MIN))
            } else if wide > 9_223_372_036_854_775_807i128 {
                Some(Fixed::from_micros(i64::MAX))
            } else {
                Some(Fixed::from_micros(wide as i64))
            }
        },
        _ => None,
    }
}

fn height_of_box(items: &Vec<Object>) -> (r: Option<Fixed>)
    ensures
        match r {
            Some(f) => box_height(array_view(items)) == Some(f.micros),
            None => box_height(array_view(items)) is None,
        },
{
    if items.len() < 4 {
        return None;
    }
    assert(array_view(items)[1] == items[1]@);
    assert(array_view(items)[3] == items[3]@);
    match (number_of(&items[1]), number_of(&items[3])) {
        (Some(y1), Some(y2)) => Some(y2.minus(y1)),
        _ => None,
    }
}

impl ObjectStore {
    /// The object id of the page with the given number, pages counted from one.
    pub fn page_id(&self, page: usize) -> (r: Option<ObjectId>)
        ensures
            r == page_at(self@, page as int),
    {
        let ids = self.page_ids();
        if page >= 1 && page <= ids.len() {
            Some(ids[page - 1])
        } else {
            None
        }
    }

    /// The height of the page with object id `id` in points: from its
    /// `MediaBox` or `CropBox`, or that of the nearest dictionary up its
    /// `Parent` chain; the height of A4 where none is found within reach.
    pub fn page_height(&self, id: ObjectId) -> (r: Result<Fixed, PdfError>)
        ensures
            match r {
                Ok(h) => page_height_of(self@.objects, id) == HeightOutcome::Height(h.micros),
                Err(e) => match page_height_of(self@.objects, id) {
                    HeightOutcome::Height(_) => false,
                    HeightOutcome::Missing => e is LopdfError,
                    HeightOutcome::Malformed => e is ParseError,
                },
            },
    {
        let ghost objs = self@.objects;
        let mut current = id;
        let mut left: usize = PARENT_LIMIT;
        while left > 0
            invariant
                left <= PARENT_LIMIT,
                objs == self@.objects,
                inherited_box(objs, id, PARENT_LIMIT as nat) == inherited_box(
                    objs,
                    current,
                    left as nat,
                ),
            decreases left,
        {
            let dict = match self.get_object(current) {
                None => {
                    return Err(missing_object());
                },
                Some(o) => match o.as_dict() {
                    Some(d) => d,
                    None => {
                        return Err(parse_error("Object is not a dictionary"));
                    },
                },
            };
            let found = match dict.get_named("MediaBox") {
                Some(v) => Some(v),
                None => dict.get_named("CropBox"),
            };
            match found {
                Some(Object::Array(items)) => {
                    return match height_of_box(items) {
                        Some(h) => Ok(h),
                        None => Err(parse_error("Invalid MediaBox")),
                    };
                },
                Some(Object::Reference(r)) => {
                    return match self.get_object(*r) {
                        None => Err(missing_object()),
                        Some(Object::Array(items)) => match height_of_box(items) {
                            Some(h) => Ok(h),
                            None => Err(parse_error("Invalid MediaBox")),
                        },
                        Some(_) => Err(parse_error("MediaBox reference is not an array")),
                    };
                },
                Some(_) => {
                    return Err(parse_error("MediaBox is not an array"));
                },
                None => {},
            }
            match dict.get_named("Parent") {
                Some(Object::Reference(parent)) => {
                    current = *parent;
                    left -= 1;
                },
                _ => {
                    return Ok(Fixed::from_micros(A4_HEIGHT_MICROS));
                },
            }
        }
        Ok(Fixed::from_micros(A4_HEIGHT_MICROS))
    }
}


/// Whether a stream's dictionary names zlib compression as its only filter.
pub open spec fn is_flate(e: Entries) -> bool {
    match lookup(e, nm("Filter")) {
        Some(Value::Name(n)) => n == nm("FlateDecode"),
        Some(Value::Array(a)) => a.len() == 1 && a[0] == Value::Name(nm("FlateDecode")),
        _ => false,
    }
}

/// The payload of a stream without its compression: decompressed where the
/// stream is zlib compressed and the payload is a zlib stream, else as stored.
pub open spec fn plain_content(e: Entries, content: Seq<u8>) -> Seq<u8> {
    if is_flate(e) {
        match zlib_decompressed(content) {
            Some(d) => d,
            None => content,
        }
    } else {
        content
    }
}

/// What one entry of a page's `Contents` adds to the page's content: the
/// payload of the stream it is or refers to, nothing where it is neither.
pub open spec fn item_content(objs: Objects, v: Value) -> Seq<u8> {
    match v {
        Value::Reference(id) => match object_at(objs, id) {
            Some(Value::Stream(e, c)) => plain_content(e, c),
            _ => Seq::empty(),
        },
        Value::Stream(e, c) => plain_content(e, c),
        _ => Seq::empty(),
    }
}

/// The content of the first `n` entries of a `Contents` array.
pub open spec fn items_content(objs: Objects, items: Seq<Value>, n: int) -> Seq<u8>
    decreases n,
{
    if n <= 0 {
        Seq::empty()
    } else {
        items_content(objs, items, n - 1) + item_content(objs, items[n - 1])
    }
}

/// The content that a page has so far.
pub open spec fn existing_content(objs: Objects, page: Entries) -> Seq<u8> {
    match lookup(page, nm("Contents")) {
        Some(Value::Array(items)) => items_content(objs, items, items.len() as int),
        Some(v) => item_content(objs, v),
        None => Seq::empty(),
    }
}

/// The dictionary of a stream that states nothing but the length of its payload.
pub open spec fn bare_stream(content: Seq<u8>) -> Value {
    Value::Stream(seq![(nm("Length"), Value::Integer(length_value(content.len())))], content)
}

fn stream_is_flate(d: &Dictionary) -> (r: bool)
    ensures
        r == is_flate(d@),
{
    match d.get_named("Filter") {
        Some(Object::Name(n)) => bytes_eq(n.as_slice(), "FlateDecode".as_bytes()),
        Some(Object::Array(a)) => {
            assert(lookup(d@, nm("Filter")) == Some(Value::Array(array_view(a))));
            assert(array_view(a).len() == a.len());
            if a.len() == 1 {
                assert(array_view(a)[0] == a[0]@);
                match &a[0] {
                    Object::Name(n) => bytes_eq(n.as_slice(), "FlateDecode".as_bytes()),
                    _ => false,
                }
            } else {
                false
            }
        },
        _ => false,
    }
}

fn plain_of(s: &Stream) -> (r: Vec<u8>)
    ensures
        r@ == plain_content(s.dict@, s.content@),
{
    if stream_is_flate(&s.dict) {
        match zlib_decompress(s.content.as_slice()) {
            Some(d) => d,
            None => copy_bytes(s.content.as_slice()),
        }
    } else {
        copy_bytes(s.content.as_slice())
    }
}

impl ObjectStore {
    fn append_item_content(&self, item: &Object, out: &mut Vec<u8>)
        ensures
            final(out)@ == old(out)@ + item_content(self@.objects, item@),
    {
        match item {
            Object::Reference(id) => match self.get_object(*id) {
                Some(Object::Stream(s)) => {
                    let mut plain = plain_of(s);
                    out.append(&mut plain);
                },
                _ => {
                    assert(out@ =~= old(out)@ + item_content(self@.objects, item@));
                },
            },
            Object::Stream(s) => {
                let mut plain = plain_of(s);
                out.append(&mut plain);
            },
            _ => {
                assert(out@ =~= old(out)@ + item_content(self@.objects, item@));
            },
        }
    }

    /// The content that a page has so far: the payloads of its content
    /// streams, decompressed, one after the other.
    pub fn read_page_content(&self, page: &Dictionary) -> (r: Vec<u8>)
        ensures
            r@ == existing_content(self@.objects, page@),
    {
        let mut out: Vec<u8> = Vec::new();
        match page.get_named("Contents") {
            Some(Object::Array(items)) => {
                let ghost vs = array_view(items);
                let mut i: usize = 0;
                while i < items.len()
                    invariant
                        i <= items.len(),
                        vs == array_view(items),
                        out@ == items_content(self@.objects, vs, i as int),
                    decreases items.len() - i,
                {
                    assert(vs[i as int] == items[i as int]@);
                    self.append_item_content(&items[i], &mut out);
                    i += 1;
                }
            },
            Some(v) => {
                self.append_item_content(v, &mut out);
                assert(out@ =~= item_content(self@.objects, v@));
            },
            None => {},
        }
        out
    }

    /// Gives the page one content stream that holds what it had so far
    /// followed by `content`, and returns the id of that stream.
    pub fn append_to_content_stream(&mut self, page_id: ObjectId, content: &[u8]) -> (r: Result<
        ObjectId,
        PdfError,
    >)
        ensures
            match r {
                Ok(id) => {
                    &&& dictionary_at(old(self)@.objects, page_id) matches Some(page)
                    &&& old(self)@.max_id < u32::MAX
                    &&& id == ((old(self)@.max_id + 1) as u32, 0u16)
                    &&& final(self)@.objects == assign(
                        assign(
                            old(self)@.objects,
                            id,
                            bare_stream(existing_content(old(self)@.objects, page) + content@),
                        ),
                        page_id,
                        Value::Dictionary(assign(page, nm("Contents"), Value::Reference(id))),
                    )
                    &&& final(self)@.trailer == old(self)@.trailer
                    &&& final(self)@.max_id == (if page_id.0 > id.0 {
                        page_id.0
                    } else {
                        id.0
                    })
                    &&& old(self).wf() ==> final(self).wf()
                    &&& old(self).wf() && lookup(old(self)@.objects, page_id) is Some ==> {
                        &&& dictionary_at(final(self)@.objects, page_id) == Some(
                            assign(page, nm("Contents"), Value::Reference(id)),
                        )
                        &&& existing_content(
                            final(self)@.objects,
                            assign(page, nm("Contents"), Value::Reference(id)),
                        ) == existing_content(old(self)@.objects, page) + content@
                    }
                },
                Err(e) => {
                    &&& *final(self) == *old(self)
                    &&& match object_at(old(self)@.objects, page_id) {
                        None => e is LopdfError,
                        Some(Value::Dictionary(_)) => old(self)@.max_id == u32::MAX
                            && e is LopdfError,
                        Some(_) => e is ParseError,
                    }
                },
            },
    {
        let (mut new_content, mut new_dict) = match self.get_object(page_id) {
            None => {
                return Err(missing_object());
            },
            Some(o) => match o.as_dict() {
                None => {
                    return Err(parse_error("Page object is not a dictionary"));
                },
                Some(d) => (self.read_page_content(d), d.clone()),
            },
        };
        if self.max_id == u32::MAX {
            return Err(PdfError::LopdfError("object numbers are used up".to_owned()));
        }
        let mut added = copy_bytes(content);
        new_content.append(&mut added);
        let stream = Stream::new(Dictionary::new(), new_content);
        assert(stream.dict@ =~= seq![
            (nm("Length"), Value::Integer(length_value(stream.content@.len()))),
        ]);
        let id = match self.add_object(Object::Stream(stream)) {
            Some(id) => id,
            None => {
                return Err(PdfError::LopdfError("object numbers are used up".to_owned()));
            },
        };
        new_dict.set_named("Contents", Object::Reference(id));
        self.set_object(page_id, Object::Dictionary(new_dict));
        proof {
            if old(self).wf() && lookup(old(self)@.objects, page_id) is Some {
                law_content_appended(old(self)@, page_id, content@);
            }
        }
        Ok(id)
    }
}


/// The dictionary that `e` holds under `key`, directly or by reference;
/// the empty dictionary where it holds none.
pub open spec fn sub_dictionary(objs: Objects, e: Entries, key: Seq<u8>) -> Entries {
    match lookup(e, key) {
        Some(v) => match resolve(objs, v, DEREF_LIMIT as nat) {
            Some(Value::Dictionary(d)) => d,
            _ => Seq::empty(),
        },
        None => Seq::empty(),
    }
}

/// `d` after the first `n` of `adds` were set in it, each name to a
/// reference to its object.
pub open spec fn with_references(d: Entries, adds: Seq<(Seq<u8>, ObjectId)>, n: int) -> Entries
    decreases n,
{
    if n <= 0 {
        d
    } else {
        assign(
            with_references(d, adds, n - 1),
            adds[n - 1].0,
            Value::Reference(adds[n - 1].1),
        )
    }
}

/// The page dictionary `page` after the resources `adds` of the kind `kind`
/// (`Font` or `XObject`) were written into its `Resources`.
pub open spec fn page_with_resources(
    objs: Objects,
    page: Entries,
    kind: Seq<u8>,
    adds: Seq<(Seq<u8>, ObjectId)>,
) -> Entries {
    let resources = sub_dictionary(objs, page, nm("Resources"));
    let section = sub_dictionary(objs, resources, kind);
    assign(
        page,
        nm("Resources"),
        Value::Dictionary(
            assign(
                resources,
                kind,
                Value::Dictionary(with_references(section, adds, adds.len() as int)),
            ),
        ),
    )
}

/// The names and object ids as mathematical values.
pub open spec fn references_view(adds: Seq<(Vec<u8>, ObjectId)>) -> Seq<(Seq<u8>, ObjectId)> {
    Seq::new(adds.len(), |i: int| (adds[i].0@, adds[i].1))
}

impl ObjectStore {
    fn sub_dictionary_of(&self, d: &Dictionary, key: &str) -> (r: Dictionary)
        ensures
            r@ == sub_dictionary(self@.objects, d@, nm(key)),
    {
        match d.get_named(key) {
            Some(v) => match self.dereference(v) {
                Some(Object::Dictionary(found)) => found.clone(),
                _ => Dictionary::new(),
            },
            None => Dictionary::new(),
        }
    }

    /// Writes references to objects into the `Font` or `XObject` section of
    /// the resources of a page, each under its resource name.
    pub fn add_page_resources(
        &mut self,
        page_id: ObjectId,
        kind: &str,
        adds: &Vec<(Vec<u8>, ObjectId)>,
    ) -> (r: Result<(), PdfError>)
        ensures
            match r {
                Ok(_) => {
                    &&& dictionary_at(old(self)@.objects, page_id) matches Some(page)
                    &&& final(self)@.objects == assign(
                        old(self)@.objects,
                        page_id,
                        Value::Dictionary(
                            page_with_resources(
                                old(self)@.objects,
                                page,
                                nm(kind),
                                references_view(adds@),
                            ),
                        ),
                    )
                    &&& final(self)@.trailer == old(self)@.trailer
                    &&& final(self)@.max_id == (if page_id.0 > old(self)@.max_id {
                        page_id.0
                    } else {
                        old(self)@.max_id
                    })
                    &&& old(self).wf() ==> final(self).wf()
                },
                Err(e) => {
                    &&& *final(self) == *old(self)
                    &&& match object_at(old(self)@.objects, page_id) {
                        None => e is LopdfError,
                        Some(Value::Dictionary(_)) => false,
                        Some(_) => e is SaveError,
                    }
                },
            },
    {
        let (mut page, mut resources, mut section) = match self.get_object(page_id) {
            None => {
                return Err(missing_object());
            },
            Some(o) => match o.as_dict() {
                None => {
                    return Err(PdfError::SaveError("Page object is not a dictionary".to_owned()));
                },
                Some(d) => {
                    let resources = self.sub_dictionary_of(d, "Resources");
                    let section = self.sub_dictionary_of(&resources, kind);
                    (d.clone(), resources, section)
                },
            },
        };
        let ghost start = section@;
        let ghost refs = references_view(adds@);
        let mut i: usize = 0;
        while i < adds.len()
            invariant
                i <= adds.len(),
                refs == references_view(adds@),
                section@ == with_references(start, refs, i as int),
            decreases adds.len() - i,
        {
            section.set(copy_bytes(adds[i].0.as_slice()), Object::Reference(adds[i].1));
            i += 1;
        }
        resources.set_named(kind, Object::Dictionary(section));
        page.set_named("Resources", Object::Dictionary(resources));
        self.set_object(page_id, Object::Dictionary(page));
        Ok(())
    }
}

/// What the root of the page tree must hold to take one more page: its
/// `Kids` as an array and its `Count` as a number that can still grow.
pub open spec fn growable(root: Entries) -> bool {
    &&& lookup(root, nm("Kids")) matches Some(Value::Array(_))
    &&& lookup(root, nm("Count")) matches Some(Value::Integer(n))
    &&& n < i64::MAX
}

/// The root of the page tree after the page `page` was appended to it.
pub open spec fn grown(root: Entries, page: ObjectId) -> Entries {
    let kids = lookup(root, nm("Kids"))->Some_0->Array_0;
    let count = lookup(root, nm("Count"))->Some_0->Integer_0;
    assign(
        assign(root, nm("Kids"), Value::Array(kids.push(Value::Reference(page)))),
        nm("Count"),
        Value::Integer((count + 1) as i64),
    )
}

/// The id and the dictionary of the root of the page tree, where the
/// document has one that can take one more page.
pub open spec fn growable_root(store: StoreView) -> Option<(ObjectId, Entries)> {
    match page_root(store) {
        Some(id) => match dictionary_at(store.objects, id) {
            Some(root) => if growable(root) {
                Some((id, root))
            } else {
                None
            },
            None => None,
        },
        None => None,
    }
}

impl ObjectStore {
    /// The root of the page tree with the page `page` appended to its kids
    /// and its count raised by one, and the id of the root.
    pub fn grown_root(&self, page: ObjectId) -> (r: Result<(ObjectId, Dictionary), PdfError>)
        ensures
            match r {
                Ok((id, d)) => growable_root(self@) matches Some((root_id, root)) && id == root_id
                    && d@ == grown(root, page),
                Err(e) => growable_root(self@) is None && e is ParseError,
            },
    {
        let id = match self.page_tree_root() {
            Some(id) => id,
            None => {
                return Err(parse_error("Document has no page tree"));
            },
        };
        let root = match self.get_dictionary(id) {
            Some(d) => d,
            None => {
                return Err(parse_error("Pages object is not a dictionary"));
            },
        };
        let kids = match root.get_named("Kids") {
            Some(Object::Array(items)) => items,
            Some(_) => {
                return Err(parse_error("Kids is not an array"));
            },
            None => {
                return Err(parse_error("Pages object missing Kids array"));
            },
        };
        let count = match root.get_named("Count") {
            Some(Object::Integer(n)) => *n,
            Some(_) => {
                return Err(parse_error("Count is not an integer"));
            },
            None => {
                return Err(parse_error("Pages object missing Count"));
            },
        };
        if count == i64::MAX {
            return Err(parse_error("Count cannot grow"));
        }
        let mut new_kids: Vec<Object> = Vec::new();
        let mut i: usize = 0;
        while i < kids.len()
            invariant
                i <= kids.len(),
                new_kids.len() == i,
                forall|j: int| 0 <= j < i ==> (#[trigger] new_kids[j])@ == kids[j]@,
            decreases kids.len() - i,
        {
            new_kids.push(kids[i].clone());
            i += 1;
        }
        new_kids.push(Object::Reference(page));
        let new_kids = array_of(new_kids);
        assert(new_kids@->Array_0 =~= array_view(kids).push(Value::Reference(page)));
        let mut d = root.clone();
        d.set_named("Kids", new_kids);
        d.set_named("Count", Object::Integer(count + 1));
        Ok((id, d))
    }
}


/// The dictionary of a blank A4 page under the page tree root `root` whose
/// content is the stream `contents`.
pub open spec fn blank_page(root: ObjectId, contents: ObjectId) -> Entries {
    seq![
        (nm("Type"), Value::Name(nm("Page"))),
        (nm("Parent"), Value::Reference(root)),
        (
            nm("MediaBox"),
            Value::Array(
                seq![
                    Value::Integer(0),
                    Value::Integer(0),
                    Value::Real(Fixed { micros: A4_WIDTH_MICROS }),
                    Value::Real(Fixed { micros: A4_HEIGHT_MICROS }),
                ],
            ),
        ),
        (nm("Resources"), Value::Dictionary(Seq::empty())),
        (nm("Contents"), Value::Reference(contents)),
    ]
}

/// The streams that a copy of a page gets as its own: for each entry of
/// the first `n` of `items` that refers to a stream, that stream.
pub open spec fn stream_copies(objs: Objects, items: Seq<Value>, n: int) -> Seq<Value>
    decreases n,
{
    if n <= 0 {
        Seq::empty()
    } else {
        let before = stream_copies(objs, items, n - 1);
        match items[n - 1] {
            Value::Reference(id) => match object_at(objs, id) {
                Some(Value::Stream(e, c)) => before.push(Value::Stream(e, c)),
                _ => before,
            },
            _ => before,
        }
    }
}

/// The entries of `Contents` that are copied when a page is duplicated: a
/// single reference counts as an array of one.
pub open spec fn copied_items(contents: Option<Value>) -> Seq<Value> {
    match contents {
        Some(Value::Array(items)) => items,
        Some(Value::Reference(id)) => seq![Value::Reference(id)],
        _ => Seq::empty(),
    }
}

/// References to `count` objects numbered from `first` on.
pub open spec fn references_from(first: int, count: int) -> Seq<Value> {
    Seq::new(count as nat, |i: int| Value::Reference(((first + i) as u32, 0u16)))
}

/// The `Contents` of the copy of a page whose copied streams are numbered
/// from `first` on.
pub open spec fn copy_contents(contents: Option<Value>, first: int, count: int) -> Option<Value> {
    match contents {
        Some(Value::Array(_)) => Some(Value::Array(references_from(first, count))),
        Some(Value::Reference(id)) => if count == 1 {
            Some(Value::Reference((first as u32, 0u16)))
        } else {
            contents
        },
        _ => None,
    }
}

/// The dictionary of the copy of the page `page`.
pub open spec fn page_copy(page: Entries, first: int, count: int) -> Entries {
    match copy_contents(lookup(page, nm("Contents")), first, count) {
        Some(c) => assign(page, nm("Contents"), c),
        None => page,
    }
}

/// The streams that a copy of the page with the dictionary `page` gets
/// as its own.
pub open spec fn own_streams(objs: Objects, page: Entries) -> Seq<Value> {
    let items = copied_items(lookup(page, nm("Contents")));
    stream_copies(objs, items, items.len() as int)
}

/// The id that a copy of the page with the dictionary `page` gets: the
/// first free object numbers go to its streams, the next one to the copy.
pub open spec fn copy_id(s: StoreView, page: Entries) -> ObjectId {
    ((s.max_id + 1 + own_streams(s.objects, page).len()) as u32, 0u16)
}

/// The objects of a document after the page with the dictionary `page`
/// was copied: its streams and the copy are added, and the root of the
/// page tree, `root` under `root_id`, has the copy as its last kid.
pub open spec fn with_page_copy(s: StoreView, page: Entries, root_id: ObjectId, root: Entries) -> Objects {
    let copies = own_streams(s.objects, page);
    let first = s.max_id + 1;
    assign(
        assign(
            with_objects(s.objects, copies, first, copies.len() as int),
            copy_id(s, page),
            Value::Dictionary(page_copy(page, first, copies.len() as int)),
        ),
        root_id,
        Value::Dictionary(grown(root, copy_id(s, page))),
    )
}

/// Whether `e` is the error with which a copy of the object `source` is
/// refused: the object is missing, is no dictionary, the object numbers
/// do not suffice, or the page tree has no root that can grow.
pub open spec fn copy_refused(s: StoreView, source: ObjectId, e: PdfError) -> bool {
    match object_at(s.objects, source) {
        None => e is LopdfError,
        Some(Value::Dictionary(page)) => if s.max_id + 1 + own_streams(s.objects, page).len() > u32::MAX {
            e is LopdfError
        } else {
            growable_root(s) is None && e is ParseError
        },
        Some(_) => e is ParseError,
    }
}

impl ObjectStore {
    /// Adds a blank A4 page with an empty content stream at the end of the
    /// document.
    pub fn add_blank_page(&mut self) -> (r: Result<ObjectId, PdfError>)
        ensures
            match r {
                Ok(page) => {
                    &&& growable_root(old(self)@) matches Some((root_id, root))
                    &&& old(self)@.max_id <= u32::MAX - 2
                    &&& page == ((old(self)@.max_id + 2) as u32, 0u16)
                    &&& final(self)@.objects == assign(
                        assign(
                            assign(
                                old(self)@.objects,
                                ((old(self)@.max_id + 1) as u32, 0u16),
                                bare_stream(Seq::empty()),
                            ),
                            page,
                            Value::Dictionary(
                                blank_page(root_id, ((old(self)@.max_id + 1) as u32, 0u16)),
                            ),
                        ),
                        root_id,
                        Value::Dictionary(grown(root, page)),
                    )
                    &&& final(self)@.trailer == old(self)@.trailer
                    &&& final(self)@.max_id >= old(self)@.max_id + 2
                    &&& old(self).wf() ==> final(self).wf()
                    &&& old(self).wf() && lookup(old(self)@.objects, root_id) == Some(
                        Value::Dictionary(root),
                    ) ==> page_appended(old(self)@, final(self)@, root_id, page)
                    &&& old(self).wf() ==> last_page_added(old(self)@, final(self)@, page)
                },
                Err(e) => {
                    &&& *final(self) == *old(self)
                    &&& if growable_root(old(self)@) is None {
                        e is ParseError
                    } else {
                        old(self)@.max_id > u32::MAX - 2 && e is LopdfError
                    }
                },
            },
    {
        if self.max_id > u32::MAX - 2 {
            return match self.grown_root((0, 0)) {
                Ok(_) => Err(PdfError::LopdfError("object numbers are used up".to_owned())),
                Err(e) => Err(e),
            };
        }
        let contents_id: ObjectId = (self.max_id + 1, 0);
        let page_id: ObjectId = (self.max_id + 2, 0);
        let (root_id, new_root) = self.grown_root(page_id)?;
        let stream = Stream::new(Dictionary::new(), Vec::new());
        assert(stream.dict@ =~= seq![(nm("Length"), Value::Integer(length_value(0)))]);
        let mut media_box: Vec<Object> = Vec::new();
        media_box.push(Object::Integer(0));
        media_box.push(Object::Integer(0));
        media_box.push(Object::Real(Fixed::from_micros(A4_WIDTH_MICROS)));
        media_box.push(Object::Real(Fixed::from_micros(A4_HEIGHT_MICROS)));
        let media_box = array_of(media_box);
        assert(media_box@->Array_0 =~= seq![
            Value::Integer(0),
            Value::Integer(0),
            Value::Real(Fixed { micros: A4_WIDTH_MICROS }),
            Value::Real(Fixed { micros: A4_HEIGHT_MICROS }),
        ]);
        let mut e: Vec<(Vec<u8>, Object)> = Vec::new();
        e.push(entry("Type", Object::name("Page")));
        e.push(entry("Parent", Object::Reference(root_id)));
        e.push(entry("MediaBox", media_box));
        e.push(entry("Resources", Object::Dictionary(Dictionary::new())));
        e.push(entry("Contents", Object::Reference(contents_id)));
        let page = Dictionary::from_entries(e);
        assert(page@ =~= blank_page(root_id, contents_id));
        let ghost before = self@;
        self.add_object(Object::Stream(stream));
        let ghost first = self@;
        self.add_object(Object::Dictionary(page));
        let ghost second = self@;
        self.set_object(root_id, Object::Dictionary(new_root));
        proof {
            let root = growable_root(before)->Some_0.1;
            if old(self).wf() && lookup(before.objects, root_id) == Some(Value::Dictionary(root)) {
                lemma_fresh_id(before, contents_id);
                lemma_fresh_id(before, page_id);
                lemma_assign_lookup(before.objects, contents_id, bare_stream(Seq::empty()), page_id);
                lemma_assign_lookup(first.objects, page_id, Value::Dictionary(page@), page_id);
                lemma_assign_lookup(second.objects, root_id, Value::Dictionary(new_root@), root_id);
                lemma_assign_lookup(second.objects, root_id, Value::Dictionary(new_root@), page_id);
                assert forall|id: ObjectId|
                    id != root_id && (#[trigger] lookup(before.objects, id)) is Some implies lookup(
                        self@.objects,
                        id,
                    ) == lookup(before.objects, id) by {
                    lemma_assign_lookup(before.objects, contents_id, bare_stream(Seq::empty()), id);
                    lemma_assign_lookup(first.objects, page_id, Value::Dictionary(page@), id);
                    lemma_assign_lookup(second.objects, root_id, Value::Dictionary(new_root@), id);
                }
                assert(lookup(page@, nm("Type")) == Some(Value::Name(nm("Page"))));
            }
            if old(self).wf() {
                assert forall|catalog: ObjectId| #[trigger]
                    plain_tree(before, catalog, root_id) implies page_appended(
                    before,
                    self@,
                    root_id,
                    page_id,
                ) by {
                    law_plain_pages(before, catalog, root_id);
                }
                law_last_page(before, self@, root_id, page_id);
            }
        }
        Ok(page_id)
    }
}


impl ObjectStore {
    /// Collects copies of the streams that the first entries of a
    /// `Contents` array refer to.
    fn copy_streams(&self, items: &Vec<Object>) -> (r: Vec<Object>)
        ensures
            r@.len() == stream_copies(self@.objects, array_view(items), items.len() as int).len(),
            forall|i: int|
                0 <= i < r@.len() ==> (#[trigger] r@[i])@ == stream_copies(
                    self@.objects,
                    array_view(items),
                    items.len() as int,
                )[i],
    {
        let ghost vs = array_view(items);
        let mut copies: Vec<Object> = Vec::new();
        let mut i: usize = 0;
        while i < items.len()
            invariant
                i <= items.len(),
                vs == array_view(items),
                copies@.len() == stream_copies(self@.objects, vs, i as int).len(),
                forall|j: int|
                    0 <= j < copies@.len() ==> (#[trigger] copies@[j])@ == stream_copies(
                        self@.objects,
                        vs,
                        i as int,
                    )[j],
            decreases items.len() - i,
        {
            assert(vs[i as int] == items[i as int]@);
            match &items[i] {
                Object::Reference(id) => match self.get_object(*id) {
                    Some(Object::Stream(s)) => {
                        copies.push(Object::Stream(s.clone()));
                    },
                    _ => {},
                },
                _ => {},
            }
            i += 1;
        }
        copies
    }

    /// Appends a copy of the page `source` to the document: a copy of its
    /// dictionary that refers to copies of its content streams.
    pub fn duplicate_page(&mut self, source: ObjectId) -> (r: Result<ObjectId, PdfError>)
        ensures
            match r {
                Ok(new_page) => {
                    &&& dictionary_at(old(self)@.objects, source) matches Some(page)
                    &&& growable_root(old(self)@) matches Some((root_id, root))
                    &&& old(self)@.max_id + 1 + own_streams(old(self)@.objects, page).len()
                        <= u32::MAX
                    &&& new_page == copy_id(old(self)@, page)
                    &&& final(self)@.objects == with_page_copy(old(self)@, page, root_id, root)
                    &&& final(self)@.trailer == old(self)@.trailer
                    &&& final(self)@.max_id > old(self)@.max_id
                    &&& old(self).wf() ==> final(self).wf()
                    &&& old(self).wf() && lookup(old(self)@.objects, root_id) == Some(
                        Value::Dictionary(root),
                    ) && lookup(page, nm("Type")) == Some(Value::Name(nm("Page"))) ==> page_appended(
                        old(self)@,
                        final(self)@,
                        root_id,
                        new_page,
                    )
                    &&& old(self).wf() && lookup(page, nm("Type")) == Some(Value::Name(nm("Page")))
                        ==> last_page_added(old(self)@, final(self)@, new_page)
                    &&& old(self).wf() && lookup(old(self)@.objects, root_id) is Some
                        && shown_by_streams(old(self)@.objects, page) ==> existing_content(
                        final(self)@.objects,
                        page_copy(
                            page,
                            old(self)@.max_id + 1,
                            own_streams(old(self)@.objects, page).len() as int,
                        ),
                    ) == existing_content(old(self)@.objects, page)
                },
                Err(e) => *final(self) == *old(self) && copy_refused(old(self)@, source, e),
            },
    {
        let ghost before = self@;
        let (mut page, copies, form) = match self.get_object(source) {
            None => {
                return Err(missing_object());
            },
            Some(o) => match o.as_dict() {
                None => {
                    return Err(parse_error("Page object is not a dictionary"));
                },
                Some(d) => {
                    let (copies, form): (Vec<Object>, u8) = match d.get_named("Contents") {
                        Some(Object::Array(items)) => (self.copy_streams(items), 2u8),
                        Some(Object::Reference(id)) => {
                            let mut single: Vec<Object> = Vec::new();
                            single.push(Object::Reference(*id));
                            proof {
                                let vs = array_view(&single);
                                assert(vs =~= seq![Value::Reference(*id)]);
                                assert(stream_copies(self@.objects, vs, 0).len() == 0);
                            }
                            (self.copy_streams(&single), 1u8)
                        },
                        _ => (Vec::new(), 0u8),
                    };
                    (d.clone(), copies, form)
                },
            },
        };
        let ghost src = dictionary_at(before.objects, source)->Some_0;
        let ghost items = copied_items(lookup(src, nm("Contents")));
        let ghost wanted = stream_copies(before.objects, items, items.len() as int);
        assert(copies@.len() == wanted.len());
        assert(forall|i: int| 0 <= i < copies@.len() ==> (#[trigger] copies@[i])@ == wanted[i]);
        let count = copies.len();
        if count as u64 >= (u32::MAX - self.max_id) as u64 {
            return Err(PdfError::LopdfError("object numbers are used up".to_owned()));
        }
        let first: u32 = self.max_id + 1;
        let new_page: ObjectId = (first + count as u32, 0);
        let (root_id, new_root) = self.grown_root(new_page)?;
        let original: Option<Object> = match page.get_named("Contents") {
            Some(o) => Some(o.clone()),
            None => None,
        };
        let mut refs: Vec<Object> = Vec::new();
        let mut i: usize = 0;
        while i < count
            invariant
                i <= count,
                count == wanted.len(),
                count == copies@.len(),
                first + count <= u32::MAX,
                first == before.max_id + 1,
                forall|j: int| 0 <= j < count ==> (#[trigger] copies@[j])@ == wanted[j],
                self@.objects == with_objects(before.objects, wanted, first as int, i as int),
                self@.trailer == before.trailer,
                self@.max_id == before.max_id + i,
                old(self).wf() ==> self.wf(),
                refs@.len() == i,
                forall|j: int|
                    0 <= j < i ==> (#[trigger] refs@[j])@ == Value::Reference(
                        ((first + j) as u32, 0u16),
                    ),
            decreases count - i,
        {
            let id = self.add_object(copies[i].clone());
            refs.push(Object::Reference((first + i as u32, 0)));
            i += 1;
        }
        match form {
            2u8 => {
                let refs = array_of(refs);
                assert(refs@->Array_0 =~= references_from(first as int, count as int));
                page.set_named("Contents", refs);
            },
            1u8 => {
                if count == 1 {
                    page.set_named("Contents", Object::Reference((first, 0)));
                } else {
                    match original {
                        Some(o) => {
                            page.set_named("Contents", o);
                        },
                        None => {},
                    }
                }
            },
            _ => {},
        }
        let ghost copied = self@;
        let ghost copy = page@;
        self.add_object(Object::Dictionary(page));
        let ghost added = self@;
        self.set_object(root_id, Object::Dictionary(new_root));
        proof {
            let root = growable_root(before)->Some_0.1;
            if old(self).wf() && lookup(before.objects, root_id) == Some(Value::Dictionary(root))
                && lookup(src, nm("Type")) == Some(Value::Name(nm("Page"))) {
                lemma_fresh_id(before, new_page);
                lemma_with_objects_lookup(before.objects, wanted, first as int, count as int, new_page);
                lemma_assign_lookup(copied.objects, new_page, Value::Dictionary(copy), new_page);
                lemma_assign_lookup(added.objects, root_id, Value::Dictionary(new_root@), root_id);
                lemma_assign_lookup(added.objects, root_id, Value::Dictionary(new_root@), new_page);
                assert forall|id: ObjectId|
                    id != root_id && (#[trigger] lookup(before.objects, id)) is Some implies lookup(
                        self@.objects,
                        id,
                    ) == lookup(before.objects, id) by {
                    crate::assoc::lemma_find_bounds(before.objects, id, 0);
                    lemma_with_objects_lookup(before.objects, wanted, first as int, count as int, id);
                    lemma_assign_lookup(copied.objects, new_page, Value::Dictionary(copy), id);
                    lemma_assign_lookup(added.objects, root_id, Value::Dictionary(new_root@), id);
                }
                lemma_type_is_not_contents();
                match copy_contents(lookup(src, nm("Contents")), first as int, count as int) {
                    Some(c) => {
                        lemma_assign_lookup(src, nm("Contents"), c, nm("Type"));
                    },
                    None => {},
                }
                assert(lookup(copy, nm("Type")) == Some(Value::Name(nm("Page"))));
            }
            if old(self).wf() && lookup(before.objects, root_id) is Some && shown_by_streams(
                before.objects,
                src,
            ) {
                law_copy_shows_the_same(before, src, root_id, root);
            }
            if old(self).wf() && lookup(src, nm("Type")) == Some(Value::Name(nm("Page"))) {
                assert forall|catalog: ObjectId| #[trigger]
                    plain_tree(before, catalog, root_id) implies page_appended(
                    before,
                    self@,
                    root_id,
                    new_page,
                ) by {
                    law_plain_pages(before, catalog, root_id);
                }
                law_last_page(before, self@, root_id, new_page);
            }
        }
        Ok(new_page)
    }
}

} // verus!
