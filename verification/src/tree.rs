//! What holds of pages after the graph was changed.
//!
//! Page trees of the plain kind: the root lists the pages themselves, and
//! catalog, root and pages are stored as dictionaries, not behind further
//! references. For such a tree the pages of the document are the kids of
//! the root, and a page appended to the root is the last page.
//!
//! Content: the copy of a page shows what the page shows, and a page that
//! was given more content shows what it showed, followed by what it was
//! given.

use vstd::prelude::*;
use vstd::string::StringSliceAdditionalSpecFns;
use crate::assoc::{assign, find, lemma_assign_lookup, lemma_find_bounds, lookup};
use crate::object::{nm, Entries, ObjectId, Value};
use crate::pages::{
    bare_stream, copy_contents, existing_content, grown, growable, item_content, items_content, own_streams,
    page_copy, references_from, stream_copies,
};
use crate::store::{
    dictionary_at, kids_at, node_type, object_at, page_root, pages_of, resolve, walk, Objects,
    StoreView,
};

verus! {

/// Whether a kid is a reference to a page dictionary that is stored as
/// it is, and is not the root `root_id` itself.
pub open spec fn plain_page(objs: Objects, kid: Value, root_id: ObjectId) -> bool {
    &&& kid matches Value::Reference(id)
    &&& id != root_id
    &&& lookup(objs, id) matches Some(Value::Dictionary(e))
    &&& lookup(e, nm("Type")) == Some(Value::Name(nm("Page")))
}

/// The ids that the kids refer to.
pub open spec fn kid_ids(kids: Seq<Value>) -> Seq<ObjectId> {
    Seq::new(kids.len(), |i: int| kids[i]->Reference_0)
}

/// Whether the page tree under the root `root_id` with the catalog
/// `catalog` is plain: all kids of the root are pages, and there are
/// fewer of them than the walk over the tree may look at.
pub open spec fn plain_tree(s: StoreView, catalog: ObjectId, root_id: ObjectId) -> bool {
    &&& lookup(s.trailer, nm("Root")) == Some(Value::Reference(catalog))
    &&& catalog != root_id
    &&& lookup(s.objects, catalog) matches Some(Value::Dictionary(c))
    &&& lookup(c, nm("Pages")) == Some(Value::Reference(root_id))
    &&& lookup(s.objects, root_id) matches Some(Value::Dictionary(root))
    &&& lookup(root, nm("Kids")) matches Some(Value::Array(kids))
    &&& kids.len() <= s.max_id
    &&& forall|i: int| 0 <= i < kids.len() ==> plain_page(s.objects, #[trigger] kids[i], root_id)
}

/// The kids of the root of a plain tree.
pub open spec fn root_kids(s: StoreView, root_id: ObjectId) -> Seq<Value> {
    lookup(lookup(s.objects, root_id)->Some_0->Dictionary_0, nm("Kids"))->Some_0->Array_0
}

/// A walk over kids that are pages finds the pages, as far as it may look.
pub proof fn lemma_walk_pages(objs: Objects, kids: Seq<Value>, root_id: ObjectId, from: int, budget: nat)
    requires
        0 <= from <= kids.len(),
        kids.len() - from <= budget,
        forall|i: int| 0 <= i < kids.len() ==> plain_page(objs, #[trigger] kids[i], root_id),
    ensures
        walk(objs, kids, from, 0, budget).0 == kid_ids(kids).skip(from),
    decreases budget, kids.len() - from,
{
    if from >= kids.len() || budget == 0 {
        assert(kid_ids(kids).skip(from) =~= Seq::empty());
    } else {
        let left = (budget - 1) as nat;
        lemma_walk_pages(objs, kids, root_id, from + 1, left);
        assert(plain_page(objs, kids[from], root_id));
        let id = kids[from]->Reference_0;
        let e = lookup(objs, id)->Some_0->Dictionary_0;
        assert(resolve(objs, Value::Dictionary(e), crate::store::DEREF_LIMIT as nat) == Some(
            Value::Dictionary(e),
        ));
        assert(dictionary_at(objs, id) == Some(e));
        assert(node_type(objs, id) == Some(nm("Page")));
        assert(seq![id] + kid_ids(kids).skip(from + 1) =~= kid_ids(kids).skip(from));
    }
}

/// The pages of a document with a plain page tree are the kids of its root.
pub proof fn law_plain_pages(s: StoreView, catalog: ObjectId, root_id: ObjectId)
    requires
        plain_tree(s, catalog, root_id),
    ensures
        page_root(s) == Some(root_id),
        pages_of(s) == kid_ids(root_kids(s, root_id)),
{
    let c = lookup(s.objects, catalog)->Some_0->Dictionary_0;
    let root = lookup(s.objects, root_id)->Some_0->Dictionary_0;
    let kids = root_kids(s, root_id);
    let limit = crate::store::DEREF_LIMIT as nat;
    assert(resolve(s.objects, Value::Dictionary(c), limit) == Some(Value::Dictionary(c)));
    assert(resolve(s.objects, Value::Dictionary(root), limit) == Some(Value::Dictionary(root)));
    assert(resolve(s.objects, Value::Array(kids), limit) == Some(Value::Array(kids)));
    assert(dictionary_at(s.objects, catalog) == Some(c));
    assert(dictionary_at(s.objects, root_id) == Some(root));
    assert(kids_at(s.objects, root_id) == kids);
    lemma_walk_pages(s.objects, kids, root_id, 0, s.max_id as nat);
    assert(kid_ids(kids).skip(0) =~= kid_ids(kids));
}

/// The names `Kids` and `Count` differ.
pub proof fn lemma_kids_is_not_count()
    ensures
        nm("Kids") != nm("Count"),
        nm("Kids").len() == 4,
        nm("Count").len() == 5,
{
    reveal_strlit("Kids");
    reveal_strlit("Count");
    vstd::string::is_ascii_spec_bytes("Kids");
    vstd::string::is_ascii_spec_bytes("Count");
    assert(vstd::string::is_ascii("Kids"));
    assert(vstd::string::is_ascii("Count"));
}

/// The kids of a root after a page was appended to it.
pub proof fn lemma_grown_kids(root: Entries, page: ObjectId)
    requires
        growable(root),
    ensures
        lookup(grown(root, page), nm("Kids")) == Some(
            Value::Array(
                (lookup(root, nm("Kids"))->Some_0->Array_0).push(Value::Reference(page)),
            ),
        ),
{
    lemma_kids_is_not_count();
    let kids = lookup(root, nm("Kids"))->Some_0->Array_0;
    let count = lookup(root, nm("Count"))->Some_0->Integer_0;
    let with_kids = assign(root, nm("Kids"), Value::Array(kids.push(Value::Reference(page))));
    lemma_assign_lookup(root, nm("Kids"), Value::Array(kids.push(Value::Reference(page))), nm("Kids"));
    lemma_assign_lookup(with_kids, nm("Count"), Value::Integer((count + 1) as i64), nm("Kids"));
}

/// Whether `after` is `s` with a page appended to the root `root_id` of
/// its page tree: the root has the page as one more kid, the page is a
/// page dictionary under an id that `s` does not hold, every other object
/// of `s` is as it was, and the walk may look at one kid more.
pub open spec fn page_appended(s: StoreView, after: StoreView, root_id: ObjectId, page: ObjectId) -> bool {
    &&& after.trailer == s.trailer
    &&& lookup(s.objects, root_id) matches Some(Value::Dictionary(root))
    &&& growable(root)
    &&& lookup(after.objects, root_id) == Some(Value::Dictionary(grown(root, page)))
    &&& lookup(s.objects, page) is None
    &&& lookup(after.objects, page) matches Some(Value::Dictionary(e))
    &&& lookup(e, nm("Type")) == Some(Value::Name(nm("Page")))
    &&& after.max_id > s.max_id
    &&& forall|id: ObjectId|
        id != root_id && (#[trigger] lookup(s.objects, id)) is Some ==> lookup(after.objects, id)
            == lookup(s.objects, id)
}

/// A page appended to the root of a plain page tree is the last page of
/// the document, behind the pages that the document had.
pub proof fn law_page_appended(
    s: StoreView,
    after: StoreView,
    catalog: ObjectId,
    root_id: ObjectId,
    page: ObjectId,
)
    requires
        plain_tree(s, catalog, root_id),
        page_appended(s, after, root_id, page),
    ensures
        plain_tree(after, catalog, root_id),
        pages_of(after) == pages_of(s).push(page),
{
    let root = lookup(s.objects, root_id)->Some_0->Dictionary_0;
    let kids = root_kids(s, root_id);
    let more = kids.push(Value::Reference(page));
    lemma_grown_kids(root, page);
    assert(root_kids(after, root_id) == more);
    assert(lookup(after.objects, catalog) == lookup(s.objects, catalog));
    assert forall|i: int| 0 <= i < more.len() implies plain_page(
        after.objects,
        #[trigger] more[i],
        root_id,
    ) by {
        if i < kids.len() {
            assert(more[i] == kids[i]);
            assert(plain_page(s.objects, kids[i], root_id));
            let id = kids[i]->Reference_0;
            assert(lookup(after.objects, id) == lookup(s.objects, id));
        }
    }
    law_plain_pages(s, catalog, root_id);
    law_plain_pages(after, catalog, root_id);
    assert(kid_ids(more) =~= kid_ids(kids).push(page));
}

/// An id above the largest object number of a well-formed graph is free.
pub proof fn lemma_fresh_id(s: StoreView, id: ObjectId)
    requires
        forall|i: int| 0 <= i < s.objects.len() ==> (#[trigger] s.objects[i]).0.0 <= s.max_id,
        id.0 > s.max_id,
    ensures
        lookup(s.objects, id) is None,
{
    lemma_find_bounds(s.objects, id, 0);
}

/// Objects stored under the numbers from `first` on leave what stands
/// under other numbers as it is.
pub proof fn lemma_with_objects_lookup(objs: Objects, values: Seq<Value>, first: int, n: int, id: ObjectId)
    requires
        0 <= n,
        0 <= first,
        first + n <= u32::MAX + 1,
        id.0 < first || id.0 >= first + n,
    ensures
        lookup(crate::store::with_objects(objs, values, first, n), id) == lookup(objs, id),
    decreases n,
{
    if n > 0 {
        lemma_with_objects_lookup(objs, values, first, n - 1, id);
        lemma_assign_lookup(
            crate::store::with_objects(objs, values, first, n - 1),
            ((first + n - 1) as u32, 0u16),
            values[n - 1],
            id,
        );
    }
}

/// The names `Type` and `Contents` differ.
pub proof fn lemma_type_is_not_contents()
    ensures
        nm("Type") != nm("Contents"),
{
    reveal_strlit("Type");
    reveal_strlit("Contents");
    vstd::string::is_ascii_spec_bytes("Type");
    vstd::string::is_ascii_spec_bytes("Contents");
    assert(vstd::string::is_ascii("Type"));
    assert(vstd::string::is_ascii("Contents"));
    assert(nm("Type").len() == 4);
    assert(nm("Contents").len() == 8);
}

/// Whether `page` is the last page of `after`, behind the pages of
/// `before`, wherever the page tree of `before` is plain; the tree of
/// `after` is then plain as well.
pub open spec fn last_page_added(before: StoreView, after: StoreView, page: ObjectId) -> bool {
    forall|catalog: ObjectId, root_id: ObjectId| #[trigger]
        plain_tree(before, catalog, root_id) ==> plain_tree(after, catalog, root_id) && pages_of(
            after,
        ) == pages_of(before).push(page)
}

/// A page appended to the root of the page tree is the last page where
/// the tree is plain.
pub proof fn law_last_page(s: StoreView, after: StoreView, root_id: ObjectId, page: ObjectId)
    requires
        page_root(s) == Some(root_id),
        forall|catalog: ObjectId| #[trigger]
            plain_tree(s, catalog, root_id) ==> page_appended(s, after, root_id, page),
    ensures
        last_page_added(s, after, page),
{
    assert forall|catalog: ObjectId, other: ObjectId| #[trigger]
        plain_tree(s, catalog, other) implies plain_tree(after, catalog, other) && pages_of(after)
        == pages_of(s).push(page) by {
        law_plain_pages(s, catalog, other);
        assert(other == root_id);
        law_page_appended(s, after, catalog, root_id, page);
    }
}

/// The content of the first entries of an array does not depend on the
/// entries behind them.
pub proof fn lemma_items_content_prefix(objs: Objects, a: Seq<Value>, b: Seq<Value>, n: int)
    requires
        0 <= n <= a.len(),
        n <= b.len(),
        forall|i: int| 0 <= i < n ==> a[i] == b[i],
    ensures
        items_content(objs, a, n) == items_content(objs, b, n),
    decreases n,
{
    if n > 0 {
        lemma_items_content_prefix(objs, a, b, n - 1);
    }
}

/// The streams that a copy of a page gets are streams, and no more than
/// the entries looked at.
pub proof fn lemma_stream_copies(objs: Objects, items: Seq<Value>, n: int)
    requires
        0 <= n <= items.len(),
    ensures
        stream_copies(objs, items, n).len() <= n,
        forall|k: int|
            0 <= k < stream_copies(objs, items, n).len() ==> (#[trigger] stream_copies(
                objs,
                items,
                n,
            )[k]) is Stream,
        n > 0 ==> forall|k: int|
            0 <= k < stream_copies(objs, items, n - 1).len() ==> stream_copies(objs, items, n)[k]
                == #[trigger] stream_copies(objs, items, n - 1)[k],
    decreases n,
{
    if n > 0 {
        lemma_stream_copies(objs, items, n - 1);
    }
}

/// The streams of a copy, stored under the numbers from `first` on, hold
/// together what the entries that were copied hold: the content of the
/// references to them in `after` is the content of the entries in `before`.
pub proof fn lemma_copies_content(
    before: Objects,
    after: Objects,
    items: Seq<Value>,
    n: int,
    first: int,
    all: Seq<Value>,
)
    requires
        0 <= n <= items.len(),
        0 <= first,
        forall|i: int| 0 <= i < n ==> !((#[trigger] items[i]) is Stream),
        stream_copies(before, items, n).len() <= all.len(),
        forall|k: int|
            0 <= k < stream_copies(before, items, n).len() ==> all[k] == #[trigger] stream_copies(
                before,
                items,
                n,
            )[k],
        forall|k: int|
            0 <= k < all.len() ==> lookup(after, ((first + k) as u32, 0u16)) == Some(#[trigger] all[k]),
    ensures
        items_content(
            after,
            references_from(first, stream_copies(before, items, n).len() as int),
            stream_copies(before, items, n).len() as int,
        ) == items_content(before, items, n),
    decreases n,
{
    let limit = crate::store::DEREF_LIMIT as nat;
    let now = stream_copies(before, items, n);
    if n > 0 {
        let earlier = stream_copies(before, items, n - 1);
        lemma_stream_copies(before, items, n);
        lemma_copies_content(before, after, items, n - 1, first, all);
        let m = earlier.len() as int;
        if now.len() == m {
            assert(now =~= earlier);
            assert(item_content(before, items[n - 1]) =~= Seq::<u8>::empty());
            assert(items_content(before, items, n) =~= items_content(before, items, n - 1));
        } else {
            assert(now.len() == m + 1);
            let v = now[m];
            assert(v == all[m]);
            let id = ((first + m) as u32, 0u16);
            assert(lookup(after, id) == Some(v));
            assert(v is Stream);
            assert(resolve(after, v, limit) == Some(v));
            assert(object_at(after, id) == Some(v));
            let refs = references_from(first, m + 1);
            assert(refs[m] == Value::Reference(id));
            assert(item_content(after, refs[m]) == item_content(before, items[n - 1]));
            lemma_items_content_prefix(after, refs, references_from(first, m), m);
        }
    }
}

/// Objects stored under the numbers from `first` on stand under them.
pub proof fn lemma_with_objects_hit(objs: Objects, values: Seq<Value>, first: int, n: int, k: int)
    requires
        0 <= k < n <= values.len(),
        0 <= first,
        first + n <= u32::MAX + 1,
    ensures
        lookup(crate::store::with_objects(objs, values, first, n), ((first + k) as u32, 0u16)) == Some(
            values[k],
        ),
    decreases n,
{
    let earlier = crate::store::with_objects(objs, values, first, n - 1);
    lemma_assign_lookup(
        earlier,
        ((first + n - 1) as u32, 0u16),
        values[n - 1],
        ((first + k) as u32, 0u16),
    );
    if k < n - 1 {
        lemma_with_objects_hit(objs, values, first, n - 1, k);
    }
}

/// Whether the content of a page comes from streams of the graph: its
/// `Contents` is an array without a stream among its entries, or refers
/// to a stream, or is missing.
pub open spec fn shown_by_streams(objs: Objects, page: Entries) -> bool {
    match lookup(page, nm("Contents")) {
        Some(Value::Array(items)) => forall|i: int|
            0 <= i < items.len() ==> !((#[trigger] items[i]) is Stream),
        Some(Value::Reference(id)) => object_at(objs, id) is Some && object_at(objs, id)->Some_0 is Stream,
        Some(_) => false,
        None => true,
    }
}

/// The copy of a page shows what the page shows: in the graph with the
/// copy, the content of the copy is the content that the page had.
pub proof fn law_copy_shows_the_same(s: StoreView, page: Entries, root_id: ObjectId, root: Entries)
    requires
        forall|i: int| 0 <= i < s.objects.len() ==> (#[trigger] s.objects[i]).0.0 <= s.max_id,
        s.max_id + 1 + own_streams(s.objects, page).len() <= u32::MAX,
        lookup(s.objects, root_id) is Some,
        shown_by_streams(s.objects, page),
    ensures
        existing_content(
            crate::pages::with_page_copy(s, page, root_id, root),
            page_copy(page, s.max_id + 1, own_streams(s.objects, page).len() as int),
        ) == existing_content(s.objects, page),
{
    let limit = crate::store::DEREF_LIMIT as nat;
    let copies = own_streams(s.objects, page);
    let first = s.max_id + 1;
    let n = copies.len() as int;
    let after = crate::pages::with_page_copy(s, page, root_id, root);
    let stored = crate::store::with_objects(s.objects, copies, first, n);
    let new_page = crate::pages::copy_id(s, page);
    let copy = page_copy(page, first, n);
    let with_copy = assign(stored, new_page, Value::Dictionary(copy));
    lemma_find_bounds(s.objects, root_id, 0);
    assert forall|k: int| 0 <= k < copies.len() implies lookup(after, ((first + k) as u32, 0u16))
        == Some(#[trigger] copies[k]) by {
        let id = ((first + k) as u32, 0u16);
        lemma_with_objects_hit(s.objects, copies, first, n, k);
        lemma_assign_lookup(stored, new_page, Value::Dictionary(copy), id);
        lemma_assign_lookup(with_copy, root_id, Value::Dictionary(grown(root, new_page)), id);
    }
    match lookup(page, nm("Contents")) {
        Some(Value::Array(items)) => {
            lemma_assign_lookup(page, nm("Contents"), Value::Array(references_from(first, n)), nm("Contents"));
            lemma_stream_copies(s.objects, items, items.len() as int);
            lemma_copies_content(s.objects, after, items, items.len() as int, first, copies);
        },
        Some(Value::Reference(id)) => {
            let items = seq![Value::Reference(id)];
            assert(stream_copies(s.objects, items, 0) =~= Seq::<Value>::empty());
            let v = object_at(s.objects, id)->Some_0;
            assert(copies =~= seq![v]);
            lemma_assign_lookup(
                page,
                nm("Contents"),
                Value::Reference((first as u32, 0u16)),
                nm("Contents"),
            );
            assert(lookup(after, ((first + 0) as u32, 0u16)) == Some(copies[0]));
            assert(resolve(after, v, limit) == Some(v));
        },
        _ => {},
    }
}

/// The names `Length` and `Filter` differ.
pub proof fn lemma_length_is_not_filter()
    ensures
        nm("Length") != nm("Filter"),
{
    reveal_strlit("Length");
    reveal_strlit("Filter");
    vstd::string::is_ascii_spec_bytes("Length");
    vstd::string::is_ascii_spec_bytes("Filter");
    assert(vstd::string::is_ascii("Length"));
    assert(vstd::string::is_ascii("Filter"));
    assert(nm("Length")[0] != nm("Filter")[0]);
}

/// After a page was given one content stream with what it had and with
/// `content` behind it, the page shows what it showed, followed by
/// `content`.
pub proof fn law_content_appended(s: StoreView, page_id: ObjectId, content: Seq<u8>)
    requires
        forall|i: int| 0 <= i < s.objects.len() ==> (#[trigger] s.objects[i]).0.0 <= s.max_id,
        s.max_id < u32::MAX,
        lookup(s.objects, page_id) is Some,
        dictionary_at(s.objects, page_id) is Some,
    ensures
        ({
            let page = dictionary_at(s.objects, page_id)->Some_0;
            let id = ((s.max_id + 1) as u32, 0u16);
            let shown = existing_content(s.objects, page) + content;
            let after = assign(
                assign(s.objects, id, bare_stream(shown)),
                page_id,
                Value::Dictionary(assign(page, nm("Contents"), Value::Reference(id))),
            );
            &&& dictionary_at(after, page_id) == Some(
                assign(page, nm("Contents"), Value::Reference(id)),
            )
            &&& existing_content(after, assign(page, nm("Contents"), Value::Reference(id))) == shown
        }),
{
    let limit = crate::store::DEREF_LIMIT as nat;
    let page = dictionary_at(s.objects, page_id)->Some_0;
    let id = ((s.max_id + 1) as u32, 0u16);
    let shown = existing_content(s.objects, page) + content;
    let stream = bare_stream(shown);
    let with_stream = assign(s.objects, id, stream);
    let new_page = assign(page, nm("Contents"), Value::Reference(id));
    let after = assign(with_stream, page_id, Value::Dictionary(new_page));
    lemma_find_bounds(s.objects, page_id, 0);
    lemma_assign_lookup(s.objects, id, stream, id);
    lemma_assign_lookup(with_stream, page_id, Value::Dictionary(new_page), page_id);
    lemma_assign_lookup(with_stream, page_id, Value::Dictionary(new_page), id);
    lemma_assign_lookup(page, nm("Contents"), Value::Reference(id), nm("Contents"));
    assert(resolve(after, Value::Dictionary(new_page), limit) == Some(Value::Dictionary(new_page)));
    assert(resolve(after, stream, limit) == Some(stream));
    assert(object_at(after, id) == Some(stream));
    lemma_length_is_not_filter();
    let e = stream->Stream_0;
    assert(e =~= seq![(nm("Length"), Value::Integer(crate::object::length_value(shown.len())))]);
    crate::assoc::lemma_find_unique(e, nm("Filter"), 0, 1);
    assert(lookup(e, nm("Filter")) is None);
}

} // verus!
