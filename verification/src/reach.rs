//! Which objects of a graph can be reached from its trailer, and the
//! removal of those that cannot.

use vstd::prelude::*;
use vstd::string::StringSliceAdditionalSpecFns;
use crate::assoc::{find, lemma_find_bounds, lemma_find_push, lemma_lookup_push, lookup};
use crate::object::{array_view, Dictionary, Entries, Object, ObjectId, Value};
use crate::store::{
    dictionary_at, kids_at, node_type, object_at, pages_of, resolve, walk, ObjectStore,
    Objects, StoreView, DEREF_LIMIT,
};

verus! {

/// Whether a value holds a reference to the object `id`, at any depth.
pub open spec fn refers_to(v: Value, id: ObjectId) -> bool
    decreases v,
{
    match v {
        Value::Reference(r) => r == id,
        Value::Array(items) => exists|i: int|
            0 <= i < items.len() && refers_to(#[trigger] items[i], id),
        Value::Dictionary(e) => exists|i: int| 0 <= i < e.len() && refers_to((#[trigger] e[i]).1, id),
        Value::Stream(e, _) => exists|i: int| 0 <= i < e.len() && refers_to((#[trigger] e[i]).1, id),
        _ => false,
    }
}

/// Whether the object `id` is referred to by the trailer, or by an object
/// that is reached from the trailer in at most `steps` steps.
pub open spec fn reached_within(objs: Objects, trailer: Entries, id: ObjectId, steps: nat) -> bool
    decreases steps,
{
    if steps == 0 {
        refers_to(Value::Dictionary(trailer), id)
    } else {
        reached_within(objs, trailer, id, (steps - 1) as nat) || exists|from: ObjectId|
            reached_within(objs, trailer, from, (steps - 1) as nat) && (#[trigger] lookup(
                objs,
                from,
            ) matches Some(v) && refers_to(v, id))
    }
}

/// Whether the object `id` can be reached from the trailer.
pub open spec fn reachable(objs: Objects, trailer: Entries, id: ObjectId) -> bool {
    exists|steps: nat| reached_within(objs, trailer, id, steps)
}

/// The ids to which the values refer.
pub open spec fn refs_of_entries(e: Entries, id: ObjectId) -> bool {
    exists|i: int| 0 <= i < e.len() && refers_to((#[trigger] e[i]).1, id)
}

/// A dictionary, and a stream, refer to what their values refer to.
pub proof fn lemma_refers_entries(e: Entries, content: Seq<u8>, id: ObjectId)
    ensures
        refers_to(Value::Dictionary(e), id) <==> refs_of_entries(e, id),
        refers_to(Value::Stream(e, content), id) <==> refs_of_entries(e, id),
{
    let d = Value::Dictionary(e);
    let s = Value::Stream(e, content);
    assert(d->Dictionary_0 == e);
    assert(s->Stream_0 == e);
    if refs_of_entries(e, id) {
        let i = choose|i: int| 0 <= i < e.len() && refers_to((#[trigger] e[i]).1, id);
        assert(exists|j: int| 0 <= j < e.len() && refers_to((#[trigger] e[j]).1, id));
        assert(refers_to(d, id));
        assert(refers_to(s, id));
    }
}

/// Whether one of the objects refers to the object `id`.
pub open spec fn list_refers(items: Seq<Object>, id: ObjectId) -> bool {
    exists|i: int| 0 <= i < items.len() && refers_to((#[trigger] items[i])@, id)
}

/// An array refers to what its items refer to.
pub proof fn lemma_refers_array(items: &Vec<Object>, id: ObjectId)
    ensures
        refers_to(Object::Array(*items)@, id) <==> list_refers(items@, id),
{
    let vs = array_view(items);
    let v = Value::Array(vs);
    assert(Object::Array(*items)@ == v);
    assert(v->Array_0 == vs);
    if refers_to(v, id) {
        let i = choose|i: int| 0 <= i < vs.len() && refers_to(#[trigger] vs[i], id);
        assert(vs[i] == items@[i]@);
        assert(refers_to(items@[i]@, id));
    }
    if list_refers(items@, id) {
        let i = choose|i: int| 0 <= i < items@.len() && refers_to((#[trigger] items@[i])@, id);
        assert(vs[i] == items@[i]@);
        assert(exists|j: int| 0 <= j < vs.len() && refers_to(#[trigger] vs[j], id));
        assert(refers_to(v, id));
    }
}

/// What the first objects refer to, the objects refer to.
proof fn lemma_list_refers_grows(items: Seq<Object>, n: int, id: ObjectId)
    requires
        0 <= n < items.len(),
    ensures
        list_refers(items.take(n + 1), id) <==> (list_refers(items.take(n), id) || refers_to(
            items[n]@,
            id,
        )),
{
    let short = items.take(n);
    let long = items.take(n + 1);
    if list_refers(short, id) {
        let i = choose|i: int| 0 <= i < short.len() && refers_to((#[trigger] short[i])@, id);
        assert(long[i] == short[i]);
        assert(refers_to(long[i]@, id));
    }
    if refers_to(items[n]@, id) {
        assert(long[n] == items[n]);
        assert(refers_to(long[n]@, id));
    }
    if list_refers(long, id) {
        let i = choose|i: int| 0 <= i < long.len() && refers_to((#[trigger] long[i])@, id);
        if i < n {
            assert(long[i] == short[i]);
            assert(refers_to(short[i]@, id));
        }
    }
}

/// What the first entries refer to, the entries refer to.
proof fn lemma_entries_refer_grows(e: Entries, n: int, id: ObjectId)
    requires
        0 <= n < e.len(),
    ensures
        refs_of_entries(e.take(n + 1), id) <==> (refs_of_entries(e.take(n), id) || refers_to(
            e[n].1,
            id,
        )),
{
    let short = e.take(n);
    let long = e.take(n + 1);
    if refs_of_entries(short, id) {
        let i = choose|i: int| 0 <= i < short.len() && refers_to((#[trigger] short[i]).1, id);
        assert(long[i] == short[i]);
        assert(refers_to(long[i].1, id));
    }
    if refers_to(e[n].1, id) {
        assert(long[n] == e[n]);
        assert(refers_to(long[n].1, id));
    }
    if refs_of_entries(long, id) {
        let i = choose|i: int| 0 <= i < long.len() && refers_to((#[trigger] long[i]).1, id);
        if i < n {
            assert(long[i] == short[i]);
            assert(refers_to(short[i].1, id));
        }
    }
}

/// What a value refers to, as a predicate on ids.
pub open spec fn refs_of(v: Value) -> spec_fn(ObjectId) -> bool {
    |id: ObjectId| refers_to(v, id)
}

/// What the values of a dictionary refer to, as a predicate on ids.
pub open spec fn refs_of_values(e: Entries) -> spec_fn(ObjectId) -> bool {
    |id: ObjectId| refs_of_entries(e, id)
}

/// What the objects of a list refer to, as a predicate on ids.
pub open spec fn refs_of_list(items: Seq<Object>) -> spec_fn(ObjectId) -> bool {
    |id: ObjectId| list_refers(items, id)
}

/// Whether `after` is `before` with ids added at its end, and the ids
/// added are exactly those that `wanted` holds of.
pub open spec fn adds_exactly(before: Seq<ObjectId>, after: Seq<ObjectId>, wanted: spec_fn(ObjectId) -> bool) -> bool {
    &&& before.len() <= after.len()
    &&& after.take(before.len() as int) == before
    &&& forall|k: int| before.len() <= k < after.len() ==> wanted(#[trigger] after[k])
    &&& forall|id: ObjectId| #[trigger] wanted(id) ==> after.contains(id)
}

/// What is added does not depend on how the wanted ids are told.
proof fn lemma_adds_same(
    before: Seq<ObjectId>,
    after: Seq<ObjectId>,
    told: spec_fn(ObjectId) -> bool,
    wanted: spec_fn(ObjectId) -> bool,
)
    requires
        adds_exactly(before, after, told),
        forall|id: ObjectId| #[trigger] wanted(id) <==> told(id),
    ensures
        adds_exactly(before, after, wanted),
{
    assert forall|k: int| before.len() <= k < after.len() implies wanted(#[trigger] after[k]) by {
        assert(told(after[k]));
    }
    assert forall|id: ObjectId| #[trigger] wanted(id) implies after.contains(id) by {
        assert(told(id));
    }
}

/// Adding ids after ids were added.
proof fn lemma_adds_twice(
    start: Seq<ObjectId>,
    middle: Seq<ObjectId>,
    end: Seq<ObjectId>,
    first: spec_fn(ObjectId) -> bool,
    second: spec_fn(ObjectId) -> bool,
    both: spec_fn(ObjectId) -> bool,
)
    requires
        adds_exactly(start, middle, first),
        adds_exactly(middle, end, second),
        forall|id: ObjectId| #[trigger] both(id) <==> (first(id) || second(id)),
    ensures
        adds_exactly(start, end, both),
{
    assert(end.take(start.len() as int) =~= start) by {
        assert forall|k: int| 0 <= k < start.len() implies end[k] == start[k] by {
            assert(end.take(middle.len() as int)[k] == end[k]);
            assert(middle.take(start.len() as int)[k] == middle[k]);
        }
    }
    assert forall|k: int| start.len() <= k < end.len() implies both(#[trigger] end[k]) by {
        if k < middle.len() {
            assert(end.take(middle.len() as int)[k] == end[k]);
            assert(first(middle[k]));
        } else {
            assert(second(end[k]));
        }
    }
    assert forall|id: ObjectId| #[trigger] both(id) implies end.contains(id) by {
        if first(id) {
            assert(middle.contains(id));
            let k = choose|k: int| 0 <= k < middle.len() && middle[k] == id;
            assert(end.take(middle.len() as int)[k] == end[k]);
        } else {
            assert(second(id));
        }
    }
}

/// Collects the ids that an object refers to, at any depth.
pub fn collect_refs(o: &Object, out: &mut Vec<ObjectId>)
    ensures
        adds_exactly(old(out)@, final(out)@, refs_of(o@)),
    decreases o,
{
    let ghost wanted = refs_of(o@);
    match o {
        Object::Reference(r) => {
            out.push(*r);
            assert(o@ == Value::Reference(*r));
            assert(out@.take(old(out)@.len() as int) =~= old(out)@);
            assert forall|id: ObjectId| #[trigger] wanted(id) implies out@.contains(id) by {
                assert(out@[out@.len() - 1] == id);
            }
        },
        Object::Array(items) => {
            collect_list(items, out);
            assert forall|id: ObjectId| #[trigger] wanted(id) <==> list_refers(items@, id) by {
                lemma_refers_array(items, id);
            }
            proof {
                let told = refs_of_list(items@);
                lemma_adds_same(old(out)@, out@, told, wanted);
            }
        },
        Object::Dictionary(d) => {
            collect_entries(d, out);
            assert(o@ == Value::Dictionary(d@));
            assert forall|id: ObjectId| #[trigger] wanted(id) <==> refs_of_entries(d@, id) by {
                lemma_refers_entries(d@, Seq::empty(), id);
            }
            proof {
                let told = refs_of_values(d@);
                lemma_adds_same(old(out)@, out@, told, wanted);
            }
        },
        Object::Stream(s) => {
            collect_entries(&s.dict, out);
            assert(o@ == Value::Stream(s.dict@, s.content@));
            assert forall|id: ObjectId| #[trigger] wanted(id) <==> refs_of_entries(s.dict@, id) by {
                lemma_refers_entries(s.dict@, s.content@, id);
            }
            proof {
                let told = refs_of_values(s.dict@);
                lemma_adds_same(old(out)@, out@, told, wanted);
            }
        },
        _ => {
            assert(out@.take(old(out)@.len() as int) =~= old(out)@);
            assert forall|id: ObjectId| !#[trigger] wanted(id) by {}
        },
    }
}

/// Collects the ids that the items of a list refer to.
pub fn collect_list(items: &Vec<Object>, out: &mut Vec<ObjectId>)
    ensures
        adds_exactly(old(out)@, final(out)@, refs_of_list(items@)),
    decreases items,
{
    let ghost start = out@;
    let mut n: usize = 0;
    proof {
        assert(out@.take(start.len() as int) =~= start);
        assert forall|id: ObjectId| !#[trigger] refs_of_list(items@.take(0))(id) by {}
    }
    while n < items.len()
        invariant
            n <= items.len(),
            start == old(out)@,
            adds_exactly(start, out@, refs_of_list(items@.take(n as int))),
        decreases items.len() - n,
    {
        let ghost before = out@;
        collect_refs(&items[n], out);
        proof {
            let first = refs_of_list(items@.take(n as int));
            let second = refs_of(items@[n as int]@);
            let both = refs_of_list(items@.take(n + 1));
            assert forall|id: ObjectId| #[trigger] both(id) <==> (first(id) || second(id)) by {
                lemma_list_refers_grows(items@, n as int, id);
            }
            lemma_adds_twice(start, before, out@, first, second, both);
        }
        n += 1;
    }
    proof {
        assert(items@.take(items@.len() as int) =~= items@);
    }
}

/// Collects the ids that the values of a dictionary refer to.
pub fn collect_entries(d: &Dictionary, out: &mut Vec<ObjectId>)
    ensures
        adds_exactly(old(out)@, final(out)@, refs_of_values(d@)),
    decreases d,
{
    let ghost start = out@;
    let ghost e = d@;
    let mut n: usize = 0;
    proof {
        assert(out@.take(start.len() as int) =~= start);
        assert forall|id: ObjectId| !#[trigger] refs_of_values(e.take(0))(id) by {}
    }
    while n < d.entries.len()
        invariant
            n <= d.entries.len(),
            e == d@,
            start == old(out)@,
            adds_exactly(start, out@, refs_of_values(e.take(n as int))),
        decreases d.entries.len() - n,
    {
        let ghost before = out@;
        assert(e[n as int].1 == d.entries[n as int].1@);
        collect_refs(&d.entries[n].1, out);
        proof {
            let first = refs_of_values(e.take(n as int));
            let second = refs_of(e[n as int].1);
            let both = refs_of_values(e.take(n + 1));
            assert forall|id: ObjectId| #[trigger] both(id) <==> (first(id) || second(id)) by {
                lemma_entries_refer_grows(e, n as int, id);
            }
            lemma_adds_twice(start, before, out@, first, second, both);
        }
        n += 1;
    }
    proof {
        assert(e.take(e.len() as int) =~= e);
    }
}

/// What an object that can be reached refers to can be reached.
pub proof fn lemma_reach_on(objs: Objects, trailer: Entries, from: ObjectId, id: ObjectId)
    requires
        reachable(objs, trailer, from),
        lookup(objs, from) matches Some(v) && refers_to(v, id),
    ensures
        reachable(objs, trailer, id),
{
    let steps = choose|steps: nat| reached_within(objs, trailer, from, steps);
    let more = (steps + 1) as nat;
    assert(reached_within(objs, trailer, from, (more - 1) as nat));
    assert(exists|f: ObjectId|
        reached_within(objs, trailer, f, (more - 1) as nat) && (#[trigger] lookup(objs, f) matches Some(
            v,
        ) && refers_to(v, id)));
    assert(reached_within(objs, trailer, id, more));
}

/// Whether entry `i` is an object of the graph that can be reached from
/// the trailer: the first entry for its id, and the id reachable.
pub open spec fn live(objs: Objects, trailer: Entries, i: int) -> bool {
    &&& 0 <= i < objs.len()
    &&& find(objs, objs[i].0, 0) == i
    &&& reachable(objs, trailer, objs[i].0)
}

/// The live ones among the first `n` entries, in their order.
pub open spec fn kept(objs: Objects, trailer: Entries, n: int) -> Objects
    decreases n,
{
    if n <= 0 {
        Seq::empty()
    } else if live(objs, trailer, n - 1) {
        kept(objs, trailer, n - 1).push(objs[n - 1])
    } else {
        kept(objs, trailer, n - 1)
    }
}

/// The graph without the objects that cannot be reached from its trailer.
pub open spec fn swept(s: StoreView) -> StoreView {
    StoreView {
        objects: kept(s.objects, s.trailer, s.objects.len() as int),
        trailer: s.trailer,
        max_id: s.max_id,
    }
}

/// Whether each object of the graph can be reached from the trailer.
pub open spec fn no_orphans(s: StoreView) -> bool {
    forall|i: int| 0 <= i < s.objects.len() ==> reachable(s.objects, s.trailer, (#[trigger] s.objects[i]).0)
}

/// Whether the search has dealt with the object `id`: it waits in the
/// list, or the graph has no such object, or the object is marked.
spec fn covered(objs: Objects, marks: Seq<bool>, work: Seq<ObjectId>, id: ObjectId) -> bool {
    work.contains(id) || find(objs, id, 0) >= objs.len() || marks[find(objs, id, 0)]
}

/// Whether the search has dealt with all that `v` refers to.
spec fn covers(objs: Objects, marks: Seq<bool>, work: Seq<ObjectId>, v: Value) -> bool {
    forall|id: ObjectId| refers_to(v, id) ==> #[trigger] covered(objs, marks, work, id)
}

/// Whether the marks and the list hold nothing but what can be reached.
spec fn search_sound(objs: Objects, trailer: Entries, marks: Seq<bool>, work: Seq<ObjectId>) -> bool {
    &&& marks.len() == objs.len()
    &&& forall|i: int| 0 <= i < marks.len() && #[trigger] marks[i] ==> live(objs, trailer, i)
    &&& forall|k: int| 0 <= k < work.len() ==> reachable(objs, trailer, #[trigger] work[k])
}

/// Whether the search has dealt with all that the trailer and the marked
/// objects refer to.
spec fn search_closed(objs: Objects, trailer: Entries, marks: Seq<bool>, work: Seq<ObjectId>) -> bool {
    &&& marks.len() == objs.len()
    &&& covers(objs, marks, work, Value::Dictionary(trailer))
    &&& forall|i: int| 0 <= i < marks.len() && #[trigger] marks[i] ==> covers(objs, marks, work, objs[i].1)
}

/// The number of entries that are not marked.
spec fn unmarked(marks: Seq<bool>) -> nat
    decreases marks.len(),
{
    if marks.len() == 0 {
        0
    } else {
        unmarked(marks.drop_last()) + if marks.last() {
            0nat
        } else {
            1nat
        }
    }
}

/// A new mark leaves one entry less without.
proof fn lemma_unmarked_less(marks: Seq<bool>, i: int)
    requires
        0 <= i < marks.len(),
        !marks[i],
    ensures
        unmarked(marks.update(i, true)) + 1 == unmarked(marks),
    decreases marks.len(),
{
    let after = marks.update(i, true);
    if i == marks.len() - 1 {
        assert(after.drop_last() =~= marks.drop_last());
    } else {
        assert(after.drop_last() =~= marks.drop_last().update(i, true));
        lemma_unmarked_less(marks.drop_last(), i);
    }
}

/// A step of the search that took `id` from the list keeps what was dealt
/// with, as long as `id` itself is dealt with afterwards.
proof fn lemma_covered_kept(
    objs: Objects,
    marks: Seq<bool>,
    work: Seq<ObjectId>,
    later_marks: Seq<bool>,
    later_work: Seq<ObjectId>,
    taken: ObjectId,
    v: Value,
)
    requires
        marks.len() == objs.len(),
        later_marks.len() == marks.len(),
        forall|i: int| 0 <= i < marks.len() && marks[i] ==> later_marks[i],
        forall|k: int| 0 <= k < work.len() && work[k] != taken ==> later_work.contains(#[trigger] work[k]),
        covered(objs, later_marks, later_work, taken),
        covers(objs, marks, work, v),
    ensures
        covers(objs, later_marks, later_work, v),
{
    assert forall|id: ObjectId| refers_to(v, id) implies #[trigger] covered(
        objs,
        later_marks,
        later_work,
        id,
    ) by {
        assert(covered(objs, marks, work, id));
        lemma_find_bounds(objs, id, 0);
        if id != taken && work.contains(id) {
            let k = choose|k: int| 0 <= k < work.len() && work[k] == id;
            assert(later_work.contains(work[k]));
        }
    }
}

/// Once nothing waits, all that can be reached is marked.
proof fn lemma_search_complete(objs: Objects, trailer: Entries, marks: Seq<bool>, id: ObjectId, steps: nat)
    requires
        search_closed(objs, trailer, marks, Seq::empty()),
        reached_within(objs, trailer, id, steps),
    ensures
        find(objs, id, 0) >= objs.len() || marks[find(objs, id, 0)],
    decreases steps,
{
    let none = Seq::<ObjectId>::empty();
    if steps == 0 {
        assert(covered(objs, marks, none, id));
    } else if reached_within(objs, trailer, id, (steps - 1) as nat) {
        lemma_search_complete(objs, trailer, marks, id, (steps - 1) as nat);
    } else {
        let from = choose|from: ObjectId|
            reached_within(objs, trailer, from, (steps - 1) as nat) && (#[trigger] lookup(objs, from) matches Some(
                v,
            ) && refers_to(v, id));
        lemma_search_complete(objs, trailer, marks, from, (steps - 1) as nat);
        let at = find(objs, from, 0);
        lemma_find_bounds(objs, from, 0);
        assert(marks[at]);
        assert(covers(objs, marks, none, objs[at].1));
        assert(covered(objs, marks, none, id));
    }
}

/// Under the id of an object that can be reached, the kept entries hold
/// that object; under any other id they hold nothing.
pub proof fn lemma_kept_lookup(objs: Objects, trailer: Entries, n: int, id: ObjectId)
    requires
        0 <= n <= objs.len(),
    ensures
        lookup(kept(objs, trailer, n), id) == (if find(objs, id, 0) < n && reachable(objs, trailer, id) {
            Some(objs[find(objs, id, 0)].1)
        } else {
            None
        }),
    decreases n,
{
    lemma_find_bounds(objs, id, 0);
    if n > 0 {
        lemma_kept_lookup(objs, trailer, n - 1, id);
        let e = objs[n - 1];
        if live(objs, trailer, n - 1) {
            lemma_lookup_push(kept(objs, trailer, n - 1), e.0, e.1, id);
        }
    }
}

/// Each kept entry is an entry that can be reached, and stands behind
/// the kept ones among the entries before it.
pub proof fn lemma_kept_live(objs: Objects, trailer: Entries, n: int, k: int)
    requires
        0 <= n <= objs.len(),
        0 <= k < kept(objs, trailer, n).len(),
    ensures
        exists|i: int|
            0 <= i < n && live(objs, trailer, i) && kept(objs, trailer, i).len() == k && kept(
                objs,
                trailer,
                n,
            )[k] == #[trigger] objs[i],
    decreases n,
{
    if n > 0 {
        if live(objs, trailer, n - 1) && k == kept(objs, trailer, n - 1).len() {
            assert(kept(objs, trailer, n)[k] == objs[n - 1]);
        } else {
            lemma_kept_live(objs, trailer, n - 1, k);
            let i = choose|i: int|
                0 <= i < n - 1 && live(objs, trailer, i) && kept(objs, trailer, i).len() == k && kept(
                    objs,
                    trailer,
                    n - 1,
                )[k] == #[trigger] objs[i];
            assert(kept(objs, trailer, n)[k] == objs[i]);
        }
    }
}

/// The kept entry for the id of an object that can be reached stands
/// behind the kept ones among the entries before the object.
pub proof fn lemma_kept_find(objs: Objects, trailer: Entries, n: int, id: ObjectId)
    requires
        0 <= n <= objs.len(),
    ensures
        find(kept(objs, trailer, n), id, 0) == (if find(objs, id, 0) < n && reachable(objs, trailer, id) {
            kept(objs, trailer, find(objs, id, 0)).len() as int
        } else {
            kept(objs, trailer, n).len() as int
        }),
    decreases n,
{
    lemma_find_bounds(objs, id, 0);
    if n > 0 {
        lemma_kept_find(objs, trailer, n - 1, id);
        lemma_kept_lookup(objs, trailer, n - 1, id);
        let e = objs[n - 1];
        if live(objs, trailer, n - 1) {
            lemma_find_push(kept(objs, trailer, n - 1), e.0, e.1, id);
        }
    }
}

/// Where every entry can be reached and none is hidden, all are kept.
pub proof fn lemma_kept_all(objs: Objects, trailer: Entries, n: int)
    requires
        0 <= n <= objs.len(),
        forall|k: int| 0 <= k < objs.len() ==> live(objs, trailer, k),
    ensures
        kept(objs, trailer, n) == objs.take(n),
    decreases n,
{
    if n > 0 {
        lemma_kept_all(objs, trailer, n - 1);
        assert(live(objs, trailer, n - 1));
        assert(objs.take(n - 1).push(objs[n - 1]) =~= objs.take(n));
    } else {
        assert(objs.take(0) =~= Seq::<(ObjectId, Value)>::empty());
    }
}

/// What can be reached in a graph can be reached, in as many steps, in
/// the graph without its other objects, and the other way round.
pub proof fn lemma_reach_kept(objs: Objects, trailer: Entries, id: ObjectId, steps: nat)
    ensures
        reached_within(objs, trailer, id, steps) <==> reached_within(
            kept(objs, trailer, objs.len() as int),
            trailer,
            id,
            steps,
        ),
    decreases steps,
{
    let few = kept(objs, trailer, objs.len() as int);
    if steps > 0 {
        let less = (steps - 1) as nat;
        lemma_reach_kept(objs, trailer, id, less);
        if reached_within(objs, trailer, id, steps) && !reached_within(objs, trailer, id, less) {
            let from = choose|from: ObjectId|
                reached_within(objs, trailer, from, less) && (#[trigger] lookup(objs, from) matches Some(v)
                    && refers_to(v, id));
            lemma_reach_kept(objs, trailer, from, less);
            lemma_kept_lookup(objs, trailer, objs.len() as int, from);
            lemma_find_bounds(objs, from, 0);
            assert(reachable(objs, trailer, from));
            assert(lookup(few, from) == lookup(objs, from));
            assert(exists|f: ObjectId|
                reached_within(few, trailer, f, less) && (#[trigger] lookup(few, f) matches Some(v)
                    && refers_to(v, id)));
        }
        if reached_within(few, trailer, id, steps) && !reached_within(few, trailer, id, less) {
            let from = choose|from: ObjectId|
                reached_within(few, trailer, from, less) && (#[trigger] lookup(few, from) matches Some(v)
                    && refers_to(v, id));
            lemma_reach_kept(objs, trailer, from, less);
            lemma_kept_lookup(objs, trailer, objs.len() as int, from);
            lemma_find_bounds(objs, from, 0);
            assert(lookup(few, from) == lookup(objs, from));
            assert(exists|f: ObjectId|
                reached_within(objs, trailer, f, less) && (#[trigger] lookup(objs, f) matches Some(v)
                    && refers_to(v, id)));
        }
    }
}

/// In a graph without the objects that cannot be reached from its
/// trailer, every object can be reached from the trailer.
pub proof fn law_no_orphans(s: StoreView)
    ensures
        no_orphans(swept(s)),
{
    let few = swept(s).objects;
    assert forall|k: int| 0 <= k < few.len() implies reachable(few, s.trailer, (#[trigger] few[k]).0) by {
        lemma_kept_live(s.objects, s.trailer, s.objects.len() as int, k);
        let i = choose|i: int|
            0 <= i < s.objects.len() && live(s.objects, s.trailer, i) && kept(s.objects, s.trailer, i).len()
                == k && few[k] == #[trigger] s.objects[i];
        let steps = choose|steps: nat| reached_within(s.objects, s.trailer, few[k].0, steps);
        lemma_reach_kept(s.objects, s.trailer, few[k].0, steps);
    }
}

/// Whether all that `v` refers to can be reached from the trailer.
pub open spec fn within(objs: Objects, trailer: Entries, v: Value) -> bool {
    forall|id: ObjectId| #[trigger] refers_to(v, id) ==> reachable(objs, trailer, id)
}

/// All that the trailer refers to can be reached.
pub proof fn lemma_within_trailer(objs: Objects, trailer: Entries)
    ensures
        within(objs, trailer, Value::Dictionary(trailer)),
{
    assert forall|id: ObjectId| #[trigger] refers_to(Value::Dictionary(trailer), id) implies reachable(
        objs,
        trailer,
        id,
    ) by {
        assert(reached_within(objs, trailer, id, 0));
    }
}

/// All that an object that can be reached refers to can be reached.
pub proof fn lemma_within_object(objs: Objects, trailer: Entries, from: ObjectId)
    requires
        reachable(objs, trailer, from),
    ensures
        lookup(objs, from) matches Some(v) ==> within(objs, trailer, v),
{
    if let Some(v) = lookup(objs, from) {
        assert forall|id: ObjectId| #[trigger] refers_to(v, id) implies reachable(objs, trailer, id) by {
            lemma_reach_on(objs, trailer, from, id);
        }
    }
}

/// A dictionary refers to what its values refer to.
pub proof fn lemma_within_entry(objs: Objects, trailer: Entries, e: Entries, key: Seq<u8>)
    requires
        within(objs, trailer, Value::Dictionary(e)),
    ensures
        lookup(e, key) matches Some(v) ==> within(objs, trailer, v),
{
    if let Some(v) = lookup(e, key) {
        let at = find(e, key, 0);
        lemma_find_bounds(e, key, 0);
        assert forall|id: ObjectId| #[trigger] refers_to(v, id) implies reachable(objs, trailer, id) by {
            assert(refers_to(e[at].1, id));
            assert(refs_of_entries(e, id));
            lemma_refers_entries(e, Seq::empty(), id);
            assert(refers_to(Value::Dictionary(e), id));
        }
    }
}

/// An array refers to what its items refer to.
pub proof fn lemma_within_item(objs: Objects, trailer: Entries, items: Seq<Value>, i: int)
    requires
        within(objs, trailer, Value::Array(items)),
        0 <= i < items.len(),
    ensures
        within(objs, trailer, items[i]),
{
    let v = Value::Array(items);
    assert(v->Array_0 == items);
    assert forall|id: ObjectId| #[trigger] refers_to(items[i], id) implies reachable(objs, trailer, id) by {
        assert(exists|j: int| 0 <= j < items.len() && refers_to(#[trigger] items[j], id));
        assert(refers_to(v, id));
    }
}

/// An array without items refers to nothing.
pub proof fn lemma_within_nothing(objs: Objects, trailer: Entries)
    ensures
        within(objs, trailer, Value::Array(Seq::empty())),
{
    let v = Value::Array(Seq::<Value>::empty());
    assert(v->Array_0.len() == 0);
    assert forall|id: ObjectId| !#[trigger] refers_to(v, id) by {}
}

/// The graph without its unreachable objects holds each reachable object.
pub proof fn lemma_kept_object(objs: Objects, trailer: Entries, id: ObjectId)
    requires
        reachable(objs, trailer, id),
    ensures
        lookup(kept(objs, trailer, objs.len() as int), id) == lookup(objs, id),
{
    lemma_kept_lookup(objs, trailer, objs.len() as int, id);
    lemma_find_bounds(objs, id, 0);
}

/// Following references from a value whose references can be reached
/// gives the same in the graph without its unreachable objects.
pub proof fn lemma_resolve_kept(objs: Objects, trailer: Entries, v: Value, fuel: nat)
    requires
        within(objs, trailer, v),
    ensures
        resolve(kept(objs, trailer, objs.len() as int), v, fuel) == resolve(objs, v, fuel),
        resolve(objs, v, fuel) matches Some(r) ==> within(objs, trailer, r),
    decreases fuel,
{
    match v {
        Value::Reference(id) => {
            assert(refers_to(v, id));
            lemma_kept_object(objs, trailer, id);
            lemma_within_object(objs, trailer, id);
            if fuel > 0 {
                if let Some(next) = lookup(objs, id) {
                    lemma_resolve_kept(objs, trailer, next, (fuel - 1) as nat);
                }
            }
        },
        _ => {},
    }
}

/// The object under a reachable id is the same in the graph without its
/// unreachable objects, and so are its dictionary, its type and its kids.
pub proof fn lemma_node_kept(objs: Objects, trailer: Entries, id: ObjectId)
    requires
        reachable(objs, trailer, id),
    ensures
        object_at(kept(objs, trailer, objs.len() as int), id) == object_at(objs, id),
        dictionary_at(kept(objs, trailer, objs.len() as int), id) == dictionary_at(objs, id),
        node_type(kept(objs, trailer, objs.len() as int), id) == node_type(objs, id),
        kids_at(kept(objs, trailer, objs.len() as int), id) == kids_at(objs, id),
        object_at(objs, id) matches Some(r) ==> within(objs, trailer, r),
        within(objs, trailer, Value::Array(kids_at(objs, id))),
{
    lemma_kept_object(objs, trailer, id);
    lemma_within_object(objs, trailer, id);
    lemma_within_nothing(objs, trailer);
    if let Some(v) = lookup(objs, id) {
        lemma_resolve_kept(objs, trailer, v, DEREF_LIMIT as nat);
        if let Some(Value::Dictionary(e)) = object_at(objs, id) {
            lemma_within_entry(objs, trailer, e, "Kids".spec_bytes());
            if let Some(k) = lookup(e, "Kids".spec_bytes()) {
                lemma_resolve_kept(objs, trailer, k, DEREF_LIMIT as nat);
            }
        }
    }
}

/// A walk from kids whose references can be reached finds the same pages
/// in the graph without its unreachable objects.
pub proof fn lemma_walk_kept(
    objs: Objects,
    trailer: Entries,
    kids: Seq<Value>,
    from: int,
    depth: nat,
    budget: nat,
)
    requires
        within(objs, trailer, Value::Array(kids)),
    ensures
        walk(kept(objs, trailer, objs.len() as int), kids, from, depth, budget) == walk(
            objs,
            kids,
            from,
            depth,
            budget,
        ),
    decreases budget, kids.len() - from,
{
    let few = kept(objs, trailer, objs.len() as int);
    if from < 0 || from >= kids.len() || budget == 0 {
    } else {
        let left = (budget - 1) as nat;
        lemma_walk_kept(objs, trailer, kids, from + 1, depth, left);
        match kids[from] {
            Value::Reference(id) => {
                lemma_within_item(objs, trailer, kids, from);
                assert(refers_to(kids[from], id));
                lemma_node_kept(objs, trailer, id);
                lemma_walk_kept(objs, trailer, kids_at(objs, id), 0, depth + 1, left);
                let b1 = walk(objs, kids_at(objs, id), 0, depth + 1, left).1;
                let b1 = if b1 <= left {
                    b1
                } else {
                    left
                };
                lemma_walk_kept(objs, trailer, kids, from + 1, depth, b1);
            },
            _ => {},
        }
    }
}

/// Removing the objects that cannot be reached from the trailer leaves
/// the pages of the document, and their order, as they are.
pub proof fn law_pages_kept(s: StoreView)
    ensures
        pages_of(swept(s)) == pages_of(s),
{
    let objs = s.objects;
    let trailer = s.trailer;
    lemma_within_trailer(objs, trailer);
    lemma_within_entry(objs, trailer, trailer, "Root".spec_bytes());
    if let Some(Value::Reference(catalog)) = lookup(trailer, "Root".spec_bytes()) {
        assert(refers_to(Value::Reference(catalog), catalog));
        lemma_node_kept(objs, trailer, catalog);
        if let Some(e) = dictionary_at(objs, catalog) {
            lemma_within_entry(objs, trailer, e, "Pages".spec_bytes());
            if let Some(Value::Reference(pages)) = lookup(e, "Pages".spec_bytes()) {
                assert(refers_to(Value::Reference(pages), pages));
                lemma_node_kept(objs, trailer, pages);
                lemma_walk_kept(objs, trailer, kids_at(objs, pages), 0, 0, s.max_id as nat);
            }
        }
    }
}

/// Removing the objects that cannot be reached a second time removes
/// nothing.
pub proof fn law_swept_once(s: StoreView)
    ensures
        swept(swept(s)) == swept(s),
{
    let objs = s.objects;
    let t = s.trailer;
    let few = kept(objs, t, objs.len() as int);
    assert forall|k: int| 0 <= k < few.len() implies live(few, t, k) by {
        lemma_kept_live(objs, t, objs.len() as int, k);
        let i = choose|i: int|
            0 <= i < objs.len() && live(objs, t, i) && kept(objs, t, i).len() == k && few[k]
                == #[trigger] objs[i];
        let id = few[k].0;
        lemma_kept_find(objs, t, objs.len() as int, id);
        let steps = choose|steps: nat| reached_within(objs, t, id, steps);
        lemma_reach_kept(objs, t, id, steps);
    }
    lemma_kept_all(few, t, few.len() as int);
    assert(few.take(few.len() as int) =~= few);
}

/// Whether the object `id` is the object `start`, or is referred to by an
/// object that is reached from `start` in at most `steps` steps.
pub open spec fn reached_from_within(objs: Objects, start: ObjectId, id: ObjectId, steps: nat) -> bool
    decreases steps,
{
    if steps == 0 {
        id == start
    } else {
        reached_from_within(objs, start, id, (steps - 1) as nat) || exists|from: ObjectId|
            reached_from_within(objs, start, from, (steps - 1) as nat) && (#[trigger] lookup(
                objs,
                from,
            ) matches Some(v) && refers_to(v, id))
    }
}

/// Whether the object `id` can be reached from the object `start`.
pub open spec fn reachable_from(objs: Objects, start: ObjectId, id: ObjectId) -> bool {
    exists|steps: nat| reached_from_within(objs, start, id, steps)
}

/// Where the trailer refers to nothing but the catalog, what is reached
/// from the trailer in some steps is reached from the catalog in as many.
pub proof fn lemma_reached_from_catalog(
    objs: Objects,
    trailer: Entries,
    catalog: ObjectId,
    id: ObjectId,
    steps: nat,
)
    requires
        forall|x: ObjectId| #[trigger] refers_to(Value::Dictionary(trailer), x) ==> x == catalog,
        reached_within(objs, trailer, id, steps),
    ensures
        reached_from_within(objs, catalog, id, steps),
    decreases steps,
{
    if steps > 0 {
        let less = (steps - 1) as nat;
        if reached_within(objs, trailer, id, less) {
            lemma_reached_from_catalog(objs, trailer, catalog, id, less);
        } else {
            let from = choose|from: ObjectId|
                reached_within(objs, trailer, from, less) && (#[trigger] lookup(objs, from) matches Some(v)
                    && refers_to(v, id));
            lemma_reached_from_catalog(objs, trailer, catalog, from, less);
            assert(exists|f: ObjectId|
                reached_from_within(objs, catalog, f, less) && (#[trigger] lookup(objs, f) matches Some(v)
                    && refers_to(v, id)));
        }
    } else {
        assert(refers_to(Value::Dictionary(trailer), id));
    }
}

/// In a graph without orphans whose trailer refers to nothing but the
/// catalog, every object can be reached from the catalog.
pub proof fn law_reached_from_catalog(s: StoreView, catalog: ObjectId, i: int)
    requires
        no_orphans(s),
        forall|x: ObjectId| #[trigger] refers_to(Value::Dictionary(s.trailer), x) ==> x == catalog,
        0 <= i < s.objects.len(),
    ensures
        reachable_from(s.objects, catalog, s.objects[i].0),
{
    let id = s.objects[i].0;
    let steps = choose|steps: nat| reached_within(s.objects, s.trailer, id, steps);
    lemma_reached_from_catalog(s.objects, s.trailer, catalog, id, steps);
}

impl ObjectStore {
    /// Marks the objects that can be reached from the trailer: follows
    /// the references of the trailer, and those of each object it comes to.
    fn mark(&self) -> (marks: Vec<bool>)
        ensures
            marks@.len() == self@.objects.len(),
            forall|i: int|
                0 <= i < marks@.len() ==> (#[trigger] marks@[i] <==> live(self@.objects, self@.trailer, i)),
    {
        let ghost objs = self@.objects;
        let ghost trailer = self@.trailer;
        let n = self.objects.len();
        let mut marks: Vec<bool> = Vec::new();
        while marks.len() < n
            invariant
                marks@.len() <= n,
                forall|i: int| 0 <= i < marks@.len() ==> !(#[trigger] marks@[i]),
            decreases n - marks.len(),
        {
            marks.push(false);
        }
        let mut work: Vec<ObjectId> = Vec::new();
        collect_entries(&self.trailer, &mut work);
        proof {
            assert forall|k: int| 0 <= k < work@.len() implies reachable(objs, trailer, #[trigger] work@[k]) by {
                assert(refs_of_values(trailer)(work@[k]));
                lemma_refers_entries(trailer, Seq::empty(), work@[k]);
                assert(reached_within(objs, trailer, work@[k], 0));
            }
            assert forall|id: ObjectId| refers_to(Value::Dictionary(trailer), id) implies #[trigger] covered(
                objs,
                marks@,
                work@,
                id,
            ) by {
                lemma_refers_entries(trailer, Seq::empty(), id);
                assert(refs_of_values(trailer)(id));
            }
        }
        while work.len() > 0
            invariant
                objs == self@.objects,
                trailer == self@.trailer,
                n == self.objects.len(),
                search_sound(objs, trailer, marks@, work@),
                search_closed(objs, trailer, marks@, work@),
            decreases unmarked(marks@), work@.len(),
        {
            let ghost marks0 = marks@;
            let ghost work0 = work@;
            let id = work.pop().unwrap();
            let ghost work1 = work@;
            let at = self.position(id);
            proof {
                lemma_find_bounds(objs, id, 0);
                assert(work0[work0.len() - 1] == id);
                assert(reachable(objs, trailer, id));
                assert forall|k: int| 0 <= k < work0.len() && work0[k] != id implies work1.contains(
                    #[trigger] work0[k],
                ) by {
                    assert(work1[k] == work0[k]);
                }
            }
            if at < n && !marks[at] {
                marks.set(at, true);
                collect_refs(&self.objects[at].1, &mut work);
                proof {
                    let v = objs[at as int].1;
                    assert(v == self.objects[at as int].1@);
                    assert(lookup(objs, id) == Some(v));
                    lemma_unmarked_less(marks0, at as int);
                    assert(work@.take(work1.len() as int) == work1);
                    assert forall|k: int| 0 <= k < work@.len() implies reachable(
                        objs,
                        trailer,
                        #[trigger] work@[k],
                    ) by {
                        if k < work1.len() {
                            assert(work@.take(work1.len() as int)[k] == work@[k]);
                            assert(work0[k] == work1[k]);
                        } else {
                            assert(refs_of(v)(work@[k]));
                            lemma_reach_on(objs, trailer, id, work@[k]);
                        }
                    }
                    assert forall|k: int| 0 <= k < work0.len() && work0[k] != id implies work@.contains(
                        #[trigger] work0[k],
                    ) by {
                        assert(work@.take(work1.len() as int)[k] == work@[k]);
                        assert(work@[k] == work0[k]);
                    }
                    assert(covered(objs, marks@, work@, id));
                    lemma_covered_kept(objs, marks0, work0, marks@, work@, id, Value::Dictionary(trailer));
                    assert forall|i: int| 0 <= i < marks@.len() && #[trigger] marks@[i] implies covers(
                        objs,
                        marks@,
                        work@,
                        objs[i].1,
                    ) by {
                        if i == at {
                            assert forall|x: ObjectId| refers_to(v, x) implies #[trigger] covered(
                                objs,
                                marks@,
                                work@,
                                x,
                            ) by {
                                assert(refs_of(v)(x));
                            }
                        } else {
                            assert(marks0[i]);
                            lemma_covered_kept(objs, marks0, work0, marks@, work@, id, objs[i].1);
                        }
                    }
                    assert forall|i: int| 0 <= i < marks@.len() && #[trigger] marks@[i] implies live(
                        objs,
                        trailer,
                        i,
                    ) by {
                        if i != at {
                            assert(marks0[i]);
                        }
                    }
                }
            } else {
                proof {
                    assert(covered(objs, marks@, work@, id));
                    lemma_covered_kept(objs, marks0, work0, marks@, work@, id, Value::Dictionary(trailer));
                    assert forall|i: int| 0 <= i < marks@.len() && #[trigger] marks@[i] implies covers(
                        objs,
                        marks@,
                        work@,
                        objs[i].1,
                    ) by {
                        lemma_covered_kept(objs, marks0, work0, marks@, work@, id, objs[i].1);
                    }
                }
            }
        }
        proof {
            assert(work@ =~= Seq::<ObjectId>::empty());
            assert forall|i: int| 0 <= i < marks@.len() && live(objs, trailer, i) implies #[trigger] marks@[i] by {
                let steps = choose|steps: nat| reached_within(objs, trailer, objs[i].0, steps);
                lemma_search_complete(objs, trailer, marks@, objs[i].0, steps);
            }
        }
        marks
    }

    /// Keeps the entries that are marked, in their order.
    fn sweep(&mut self, marks: &Vec<bool>)
        requires
            marks@.len() == old(self)@.objects.len(),
            forall|i: int|
                0 <= i < marks@.len() ==> (#[trigger] marks@[i] <==> live(
                    old(self)@.objects,
                    old(self)@.trailer,
                    i,
                )),
        ensures
            final(self)@ == swept(old(self)@),
    {
        let ghost objs = self@.objects;
        let ghost trailer = self@.trailer;
        let mut all: Vec<(ObjectId, Object)> = Vec::new();
        std::mem::swap(&mut all, &mut self.objects);
        let n = all.len();
        let mut i: usize = 0;
        while i < n
            invariant
                i <= n,
                n == all.len(),
                n == objs.len(),
                marks@.len() == n,
                forall|j: int| 0 <= j < n ==> (#[trigger] marks@[j] <==> live(objs, trailer, j)),
                forall|j: int| i <= j < n ==> (#[trigger] all@[j]).0 == objs[j].0 && all@[j].1@ == objs[j].1,
                self@.objects == kept(objs, trailer, i as int),
                self@.trailer == trailer,
                self.max_id == old(self).max_id,
            decreases n - i,
        {
            if marks[i] {
                let mut entry: (ObjectId, Object) = (all[i].0, Object::Null);
                std::mem::swap(&mut entry, &mut all[i]);
                let ghost before = self@.objects;
                self.objects.push(entry);
                proof {
                    assert(self@.objects =~= before.push(objs[i as int]));
                }
            }
            i += 1;
        }
    }

    /// Removes the objects that cannot be reached from the trailer, and
    /// the entries that an earlier entry for the same id hides.
    pub fn prune(&mut self)
        ensures
            final(self)@ == swept(old(self)@),
            no_orphans(final(self)@),
            pages_of(final(self)@) == pages_of(old(self)@),
            old(self).wf() ==> final(self).wf(),
    {
        let marks = self.mark();
        self.sweep(&marks);
        proof {
            let before = old(self)@;
            law_no_orphans(before);
            law_pages_kept(before);
            if old(self).wf() {
                assert forall|k: int| 0 <= k < self@.objects.len() implies (#[trigger] self@.objects[k]).0.0
                    <= self@.max_id by {
                    lemma_kept_live(before.objects, before.trailer, before.objects.len() as int, k);
                }
            }
        }
    }
}

} // verus!
