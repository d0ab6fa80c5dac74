//! The object graph of a document: indirect objects by id, the trailer, and
//! the walk over the page tree.

use vstd::prelude::*;
use vstd::string::StringSliceAdditionalSpecFns;
use crate::assoc::{assign, find, lemma_find_unique, lookup};
use crate::object::{array_view, bytes_eq, Dictionary, Entries, Object, ObjectId, Value};

verus! {

/// How many references in a row are followed before giving up.
pub const DEREF_LIMIT: usize = 128;

/// How deep the page tree is followed.
pub const PAGE_TREE_DEPTH_LIMIT: usize = 256;

/// The indirect objects of a document with their ids.
pub type Objects = Seq<(ObjectId, Value)>;

/// A document's object graph.
pub struct ObjectStore {
    /// The indirect objects; the first entry for an id is the object.
    pub objects: Vec<(ObjectId, Object)>,
    /// The trailer dictionary.
    pub trailer: Dictionary,
    /// The largest object number handed out so far.
    pub max_id: u32,
}

/// The mathematical value of an [`ObjectStore`].
pub struct StoreView {
    pub objects: Objects,
    pub trailer: Entries,
    pub max_id: u32,
}

impl View for ObjectStore {
    type V = StoreView;

    open spec fn view(&self) -> StoreView {
        StoreView {
            objects: Seq::new(
                self.objects.len() as nat,
                |i: int| (self.objects[i].0, self.objects[i].1@),
            ),
            trailer: self.trailer@,
            max_id: self.max_id,
        }
    }
}

/// The value reached from `value` by following references, at most `fuel` of them.
pub open spec fn resolve(objs: Objects, value: Value, fuel: nat) -> Option<Value>
    decreases fuel,
{
    match value {
        Value::Reference(id) => if fuel == 0 {
            None
        } else {
            match lookup(objs, id) {
                Some(next) => resolve(objs, next, (fuel - 1) as nat),
                None => None,
            }
        },
        _ => Some(value),
    }
}

/// The object with the given id, references followed.
pub open spec fn object_at(objs: Objects, id: ObjectId) -> Option<Value> {
    match lookup(objs, id) {
        Some(v) => resolve(objs, v, DEREF_LIMIT as nat),
        None => None,
    }
}

/// The entries of the dictionary with the given id.
pub open spec fn dictionary_at(objs: Objects, id: ObjectId) -> Option<Entries> {
    match object_at(objs, id) {
        Some(Value::Dictionary(e)) => Some(e),
        _ => None,
    }
}

/// The `Type` of the dictionary with the given id.
pub open spec fn node_type(objs: Objects, id: ObjectId) -> Option<Seq<u8>> {
    match dictionary_at(objs, id) {
        Some(e) => match lookup(e, "Type".spec_bytes()) {
            Some(Value::Name(n)) => Some(n),
            _ => None,
        },
        None => None,
    }
}

/// The `Kids` of the page tree node with the given id; empty where there are none.
pub open spec fn kids_at(objs: Objects, id: ObjectId) -> Seq<Value> {
    match dictionary_at(objs, id) {
        Some(e) => match lookup(e, "Kids".spec_bytes()) {
            Some(k) => match resolve(objs, k, DEREF_LIMIT as nat) {
                Some(Value::Array(items)) => items,
                _ => Seq::empty(),
            },
            None => Seq::empty(),
        },
        None => Seq::empty(),
    }
}

/// The pages found under `kids` from position `from` on, in document order,
/// and what is left of `budget`. Each kid looked at costs one unit of budget;
/// nodes nested deeper than the depth limit are not entered.
pub open spec fn walk(objs: Objects, kids: Seq<Value>, from: int, depth: nat, budget: nat) -> (
    Seq<ObjectId>,
    nat,
)
    decreases budget, kids.len() - from,
{
    if from < 0 || from >= kids.len() || budget == 0 {
        (Seq::empty(), budget)
    } else {
        let left = (budget - 1) as nat;
        match kids[from] {
            Value::Reference(id) => match node_type(objs, id) {
                None => {
                    let (rest, b) = walk(objs, kids, from + 1, depth, left);
                    (seq![id] + rest, b)
                },
                Some(t) => if t == "Page".spec_bytes() {
                    let (rest, b) = walk(objs, kids, from + 1, depth, left);
                    (seq![id] + rest, b)
                } else if t == "Pages".spec_bytes() && depth < PAGE_TREE_DEPTH_LIMIT {
                    let (below, b1) = walk(objs, kids_at(objs, id), 0, depth + 1, left);
                    let b1 = if b1 <= left {
                        b1
                    } else {
                        left
                    };
                    let (rest, b2) = walk(objs, kids, from + 1, depth, b1);
                    (below + rest, b2)
                } else {
                    walk(objs, kids, from + 1, depth, left)
                },
            },
            _ => walk(objs, kids, from + 1, depth, left),
        }
    }
}

/// The id of the root of the page tree.
pub open spec fn page_root(store: StoreView) -> Option<ObjectId> {
    match lookup(store.trailer, "Root".spec_bytes()) {
        Some(Value::Reference(catalog)) => match dictionary_at(store.objects, catalog) {
            Some(e) => match lookup(e, "Pages".spec_bytes()) {
                Some(Value::Reference(pages)) => Some(pages),
                _ => None,
            },
            None => None,
        },
        _ => None,
    }
}

/// The ids of the pages of a document, in page order. The walk looks at
/// no more kids than the largest object number, which bounds it where the
/// page tree runs in a circle.
pub open spec fn pages_of(store: StoreView) -> Seq<ObjectId> {
    match page_root(store) {
        Some(root) => walk(store.objects, kids_at(store.objects, root), 0, 0, store.max_id as nat).0,
        None => Seq::empty(),
    }
}

/// What is left of the budget never exceeds the budget.
pub proof fn lemma_walk_budget(objs: Objects, kids: Seq<Value>, from: int, depth: nat, budget: nat)
    ensures
        walk(objs, kids, from, depth, budget).1 <= budget,
    decreases budget, kids.len() - from,
{
    if from < 0 || from >= kids.len() || budget == 0 {
    } else {
        let left = (budget - 1) as nat;
        lemma_walk_budget(objs, kids, from + 1, depth, left);
        match kids[from] {
            Value::Reference(id) => {
                lemma_walk_budget(objs, kids_at(objs, id), 0, depth + 1, left);
                let b1 = walk(objs, kids_at(objs, id), 0, depth + 1, left).1;
                lemma_walk_budget(objs, kids, from + 1, depth, b1);
            },
            _ => {},
        }
    }
}


impl ObjectStore {
    /// A graph without objects.
    pub fn new() -> (s: ObjectStore)
        ensures
            s@.objects.len() == 0,
            s@.trailer.len() == 0,
            s@.max_id == 0,
            s.wf(),
    {
        ObjectStore { objects: Vec::new(), trailer: Dictionary::new(), max_id: 0 }
    }

    /// No object number exceeds the largest one handed out.
    pub open spec fn wf(&self) -> bool {
        forall|i: int| 0 <= i < self@.objects.len() ==> (#[trigger] self@.objects[i]).0.0 <= self@.max_id
    }

    /// The number of indirect objects.
    pub fn len(&self) -> (n: usize)
        ensures
            n == self@.objects.len(),
    {
        self.objects.len()
    }

    pub(crate) fn position(&self, id: ObjectId) -> (i: usize)
        ensures
            i == find(self@.objects, id, 0),
            i <= self.objects.len(),
    {
        let mut i: usize = 0;
        while i < self.objects.len()
            invariant
                i <= self.objects.len(),
                forall|j: int| 0 <= j < i ==> (#[trigger] self@.objects[j]).0 != id,
            decreases self.objects.len() - i,
        {
            let key = self.objects[i].0;
            if key.0 == id.0 && key.1 == id.1 {
                proof {
                    lemma_find_unique(self@.objects, id, 0, i as int);
                }
                return i;
            }
            i += 1;
        }
        proof {
            lemma_find_unique(self@.objects, id, 0, i as int);
        }
        i
    }

    /// The object stored under `id`, as it stands.
    pub fn get_raw(&self, id: ObjectId) -> (r: Option<&Object>)
        ensures
            match r {
                Some(o) => lookup(self@.objects, id) == Some(o@),
                None => lookup(self@.objects, id) is None,
            },
    {
        let i = self.position(id);
        if i < self.objects.len() {
            Some(&self.objects[i].1)
        } else {
            None
        }
    }

    /// Follows references from `start` to the first value that is none.
    pub fn dereference<'a>(&'a self, start: &'a Object) -> (r: Option<&'a Object>)
        ensures
            match r {
                Some(o) => resolve(self@.objects, start@, DEREF_LIMIT as nat) == Some(o@),
                None => resolve(self@.objects, start@, DEREF_LIMIT as nat) is None,
            },
    {
        let mut cur: &Object = start;
        let mut n: usize = 0;
        loop
            invariant
                n <= DEREF_LIMIT,
                resolve(self@.objects, start@, DEREF_LIMIT as nat) == resolve(
                    self@.objects,
                    cur@,
                    (DEREF_LIMIT - n) as nat,
                ),
            decreases DEREF_LIMIT - n,
        {
            match cur {
                Object::Reference(id) => {
                    if n == DEREF_LIMIT {
                        return None;
                    }
                    match self.get_raw(*id) {
                        Some(o) => {
                            cur = o;
                            n += 1;
                        },
                        None => {
                            return None;
                        },
                    }
                },
                _ => {
                    return Some(cur);
                },
            }
        }
    }

    /// The object with the given id, references followed.
    pub fn get_object(&self, id: ObjectId) -> (r: Option<&Object>)
        ensures
            match r {
                Some(o) => object_at(self@.objects, id) == Some(o@),
                None => object_at(self@.objects, id) is None,
            },
    {
        match self.get_raw(id) {
            Some(o) => self.dereference(o),
            None => None,
        }
    }

    /// The dictionary with the given id.
    pub fn get_dictionary(&self, id: ObjectId) -> (r: Option<&Dictionary>)
        ensures
            match r {
                Some(d) => dictionary_at(self@.objects, id) == Some(d@),
                None => dictionary_at(self@.objects, id) is None,
            },
    {
        match self.get_object(id) {
            Some(o) => o.as_dict(),
            None => None,
        }
    }

    /// Stores `object` under `id`, in place of what was there.
    pub fn set_object(&mut self, id: ObjectId, object: Object)
        ensures
            final(self)@.objects == assign(old(self)@.objects, id, object@),
            final(self)@.trailer == old(self)@.trailer,
            final(self)@.max_id == (if id.0 > old(self)@.max_id {
                id.0
            } else {
                old(self)@.max_id
            }),
            old(self).wf() ==> final(self).wf(),
    {
        let i = self.position(id);
        if i < self.objects.len() {
            self.objects[i] = (id, object);
        } else {
            self.objects.push((id, object));
        }
        if id.0 > self.max_id {
            self.max_id = id.0;
        }
        assert(self@.objects =~= assign(old(self)@.objects, id, object@));
    }

    /// Adds `object` under the next free object number; `None` where the
    /// numbers are used up.
    pub fn add_object(&mut self, object: Object) -> (r: Option<ObjectId>)
        ensures
            match r {
                Some(id) => {
                    &&& old(self)@.max_id < u32::MAX
                    &&& id == ((old(self)@.max_id + 1) as u32, 0u16)
                    &&& final(self)@.objects == assign(old(self)@.objects, id, object@)
                    &&& final(self)@.trailer == old(self)@.trailer
                    &&& final(self)@.max_id == id.0
                    &&& old(self).wf() ==> final(self).wf() && final(self)@.objects == old(self)@.objects.push((id, object@))
                },
                None => old(self)@.max_id == u32::MAX && final(self)@ == old(self)@,
            },
    {
        if self.max_id == u32::MAX {
            return None;
        }
        let id: ObjectId = (self.max_id + 1, 0);
        proof {
            if self.wf() {
                lemma_find_unique(self@.objects, id, 0, self@.objects.len() as int);
            }
        }
        self.set_object(id, object);
        Some(id)
    }
}


impl ObjectStore {
    /// The `Type` of the dictionary with the given id.
    pub fn type_of(&self, id: ObjectId) -> (r: Option<&[u8]>)
        ensures
            match r {
                Some(t) => node_type(self@.objects, id) == Some(t@),
                None => node_type(self@.objects, id) is None,
            },
    {
        match self.get_dictionary(id) {
            Some(d) => match d.get_named("Type") {
                Some(t) => t.as_name(),
                None => None,
            },
            None => None,
        }
    }

    /// The `Kids` array of the page tree node with the given id.
    pub fn kids(&self, id: ObjectId) -> (r: Option<&Vec<Object>>)
        ensures
            match r {
                Some(items) => kids_at(self@.objects, id) == array_view(items),
                None => kids_at(self@.objects, id).len() == 0,
            },
    {
        match self.get_dictionary(id) {
            Some(d) => match d.get_named("Kids") {
                Some(k) => match self.dereference(k) {
                    Some(a) => a.as_array(),
                    None => None,
                },
                None => None,
            },
            None => None,
        }
    }

    /// Collects the pages under `kids` from position `from` on into `out`
    /// and returns what is left of `budget`.
    fn walk_kids(
        &self,
        kids: &Vec<Object>,
        from: usize,
        depth: usize,
        budget: usize,
        out: &mut Vec<ObjectId>,
    ) -> (left: usize)
        requires
            from <= kids.len(),
        ensures
            final(out)@ == old(out)@ + walk(
                self@.objects,
                array_view(kids),
                from as int,
                depth as nat,
                budget as nat,
            ).0,
            left == walk(
                self@.objects,
                array_view(kids),
                from as int,
                depth as nat,
                budget as nat,
            ).1,
        decreases budget, kids.len() - from,
    {
        let ghost objs = self@.objects;
        let ghost ks = array_view(kids);
        let ghost goal = walk(objs, ks, from as int, depth as nat, budget as nat);
        let mut i: usize = from;
        let mut b: usize = budget;
        while i < kids.len() && b > 0
            invariant
                from <= i <= kids.len(),
                b <= budget,
                objs == self@.objects,
                ks == array_view(kids),
                goal == walk(objs, ks, from as int, depth as nat, budget as nat),
                old(out)@ + goal.0 == out@ + walk(objs, ks, i as int, depth as nat, b as nat).0,
                goal.1 == walk(objs, ks, i as int, depth as nat, b as nat).1,
            decreases kids.len() - i,
        {
            let ghost before = out@;
            let ghost step = walk(objs, ks, i as int, depth as nat, b as nat);
            let left: usize = b - 1;
            assert(ks[i as int] == kids[i as int]@);
            match &kids[i] {
                Object::Reference(id) => {
                    match self.type_of(*id) {
                        None => {
                            out.push(*id);
                            b = left;
                        },
                        Some(t) => {
                            if bytes_eq(t, "Page".as_bytes()) {
                                out.push(*id);
                                b = left;
                            } else if bytes_eq(t, "Pages".as_bytes()) && depth
                                < PAGE_TREE_DEPTH_LIMIT {
                                proof {
                                    lemma_walk_budget(
                                        objs,
                                        kids_at(objs, *id),
                                        0,
                                        (depth + 1) as nat,
                                        left as nat,
                                    );
                                }
                                match self.kids(*id) {
                                    Some(below) => {
                                        b = self.walk_kids(below, 0, depth + 1, left, out);
                                    },
                                    None => {
                                        b = left;
                                    },
                                }
                            } else {
                                b = left;
                            }
                        },
                    }
                },
                _ => {
                    b = left;
                },
            }
            i += 1;
            assert(before + step.0 =~= out@ + walk(objs, ks, i as int, depth as nat, b as nat).0);
        }
        assert(out@ =~= old(out)@ + goal.0);
        b
    }

    /// The id of the root of the page tree.
    pub fn page_tree_root(&self) -> (r: Option<ObjectId>)
        ensures
            r == page_root(self@),
    {
        let catalog = match self.trailer.get_named("Root") {
            Some(o) => match o.as_reference() {
                Some(id) => id,
                None => {
                    return None;
                },
            },
            None => {
                return None;
            },
        };
        match self.get_dictionary(catalog) {
            Some(d) => match d.get_named("Pages") {
                Some(p) => p.as_reference(),
                None => None,
            },
            None => None,
        }
    }

    /// The ids of the pages, in page order.
    pub fn page_ids(&self) -> (r: Vec<ObjectId>)
        ensures
            r@ == pages_of(self@),
    {
        let mut out: Vec<ObjectId> = Vec::new();
        match self.page_tree_root() {
            Some(root) => match self.kids(root) {
                Some(kids) => {
                    self.walk_kids(kids, 0, 0, self.max_id as usize, &mut out);
                },
                None => {},
            },
            None => {},
        }
        out
    }

    /// The number of pages.
    pub fn page_count(&self) -> (n: usize)
        ensures
            n == pages_of(self@).len(),
    {
        self.page_ids().len()
    }
}


impl ObjectStore {
    /// A graph from its parts. The largest object number is raised where
    /// an object has a larger one.
    pub fn from_parts(objects: Vec<(ObjectId, Object)>, trailer: Dictionary, max_id: u32) -> (s:
        ObjectStore)
        ensures
            s.wf(),
            s.objects == objects,
            s.trailer == trailer,
            s@.max_id >= max_id,
    {
        let mut top = max_id;
        let mut i: usize = 0;
        while i < objects.len()
            invariant
                i <= objects.len(),
                top >= max_id,
                forall|j: int| 0 <= j < i ==> (#[trigger] objects@[j]).0.0 <= top,
            decreases objects.len() - i,
        {
            if objects[i].0.0 > top {
                top = objects[i].0.0;
            }
            i += 1;
        }
        ObjectStore { objects, trailer, max_id: top }
    }
}


/// The objects after the first `n` of `values` were stored under the
/// object numbers from `first` on.
pub open spec fn with_objects(objs: Objects, values: Seq<Value>, first: int, n: int) -> Objects
    decreases n,
{
    if n <= 0 {
        objs
    } else {
        assign(
            with_objects(objs, values, first, n - 1),
            ((first + n - 1) as u32, 0u16),
            values[n - 1],
        )
    }
}

impl ObjectStore {
    /// Adds the objects under the next free object numbers, in their order.
    pub fn add_objects(&mut self, objects: Vec<Object>)
        requires
            old(self)@.max_id + objects@.len() <= u32::MAX,
        ensures
            final(self)@.objects == with_objects(
                old(self)@.objects,
                Seq::new(objects@.len(), |i: int| objects@[i]@),
                old(self)@.max_id + 1,
                objects@.len() as int,
            ),
            final(self)@.trailer == old(self)@.trailer,
            final(self)@.max_id == old(self)@.max_id + objects@.len(),
            old(self).wf() ==> final(self).wf(),
    {
        let ghost values = Seq::new(objects@.len(), |i: int| objects@[i]@);
        let ghost first = self@.max_id + 1;
        let n = objects.len();
        let mut i: usize = 0;
        while i < n
            invariant
                i <= n,
                n == objects@.len(),
                values == Seq::new(objects@.len(), |i: int| objects@[i]@),
                first == old(self)@.max_id + 1,
                old(self)@.max_id + n <= u32::MAX,
                self@.objects == with_objects(old(self)@.objects, values, first, i as int),
                self@.trailer == old(self)@.trailer,
                self@.max_id == old(self)@.max_id + i,
                old(self).wf() ==> self.wf(),
            decreases n - i,
        {
            self.add_object(objects[i].clone());
            i += 1;
        }
    }
}

} // verus!
