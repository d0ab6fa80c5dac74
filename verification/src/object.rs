//! The PDF object model: values, dictionaries and streams.

use vstd::prelude::*;
use vstd::string::StringSliceAdditionalSpecFns;
use vstd::string::StrSliceExecFns;
use crate::assoc::{assign, find, lemma_find_unique, lookup};
use crate::units::Fixed;

verus! {

/// Object number and generation of an indirect object.
pub type ObjectId = (u32, u16);

/// A PDF value as it is held in memory.
pub enum Object {
    Null,
    Boolean(bool),
    Integer(i64),
    Real(Fixed),
    Name(Vec<u8>),
    /// A string and whether it is written in hexadecimal form.
    String(Vec<u8>, bool),
    Array(Vec<Object>),
    Dictionary(Dictionary),
    Stream(Stream),
    Reference(ObjectId),
}

/// A dictionary: keys with their values, in the order in which they were first set.
pub struct Dictionary {
    pub entries: Vec<(Vec<u8>, Object)>,
}

/// A stream: its dictionary and its payload as stored.
pub struct Stream {
    pub dict: Dictionary,
    pub content: Vec<u8>,
}

/// The mathematical value of an [`Object`].
pub enum Value {
    Null,
    Boolean(bool),
    Integer(i64),
    Real(Fixed),
    Name(Seq<u8>),
    String(Seq<u8>, bool),
    Array(Seq<Value>),
    Dictionary(Seq<(Seq<u8>, Value)>),
    Stream(Seq<(Seq<u8>, Value)>, Seq<u8>),
    Reference(ObjectId),
}

/// The entries of a dictionary as mathematical values.
pub type Entries = Seq<(Seq<u8>, Value)>;

impl View for Object {
    type V = Value;

    open spec fn view(&self) -> Value
        decreases self,
    {
        match self {
            Object::Null => Value::Null,
            Object::Boolean(b) => Value::Boolean(*b),
            Object::Integer(i) => Value::Integer(*i),
            Object::Real(r) => Value::Real(*r),
            Object::Name(n) => Value::Name(n@),
            Object::String(s, hex) => Value::String(s@, *hex),
            Object::Array(items) => Value::Array(array_view(items)),
            Object::Dictionary(d) => Value::Dictionary(d.view()),
            Object::Stream(s) => Value::Stream(s.dict.view(), s.content@),
            Object::Reference(id) => Value::Reference(*id),
        }
    }
}

/// The values of the items of an array.
pub open spec fn array_view(items: &Vec<Object>) -> Seq<Value>
    decreases items,
{
    Seq::new(
        items.len() as nat,
        |i: int|
            if 0 <= i < items.len() {
                items[i].view()
            } else {
                Value::Null
            },
    )
}

impl View for Dictionary {
    type V = Entries;

    open spec fn view(&self) -> Entries
        decreases self,
    {
        Seq::new(
            self.entries.len() as nat,
            |i: int|
                if 0 <= i < self.entries.len() {
                    (self.entries[i].0@, self.entries[i].1.view())
                } else {
                    (Seq::empty(), Value::Null)
                },
        )
    }
}


/// Whether two byte strings are equal.
pub fn bytes_eq(a: &[u8], b: &[u8]) -> (r: bool)
    ensures
        r == (a@ == b@),
{
    if a.len() != b.len() {
        return false;
    }
    let mut i: usize = 0;
    while i < a.len()
        invariant
            i <= a.len(),
            a.len() == b.len(),
            forall|j: int| 0 <= j < i ==> a@[j] == b@[j],
        decreases a.len() - i,
    {
        if a[i] != b[i] {
            return false;
        }
        i += 1;
    }
    assert(a@ =~= b@);
    true
}

/// A copy of a byte string.
pub fn copy_bytes(a: &[u8]) -> (r: Vec<u8>)
    ensures
        r@ == a@,
{
    vstd::slice::slice_to_vec(a)
}

impl Dictionary {
    /// The empty dictionary.
    pub fn new() -> (d: Dictionary)
        ensures
            d@ == Seq::<(Seq<u8>, Value)>::empty(),
    {
        let d = Dictionary { entries: Vec::new() };
        assert(d@ =~= Seq::<(Seq<u8>, Value)>::empty());
        d
    }

    pub fn len(&self) -> (n: usize)
        ensures
            n == self@.len(),
    {
        self.entries.len()
    }

    pub fn is_empty(&self) -> (r: bool)
        ensures
            r == (self@.len() == 0),
    {
        self.entries.len() == 0
    }

    fn position(&self, key: &[u8]) -> (i: usize)
        ensures
            i == find(self@, key@, 0),
            i <= self.entries.len(),
    {
        let mut i: usize = 0;
        while i < self.entries.len()
            invariant
                i <= self.entries.len(),
                forall|j: int| 0 <= j < i ==> (#[trigger] self@[j]).0 != key@,
            decreases self.entries.len() - i,
        {
            if bytes_eq(self.entries[i].0.as_slice(), key) {
                proof {
                    lemma_find_unique(self@, key@, 0, i as int);
                }
                return i;
            }
            i += 1;
        }
        proof {
            lemma_find_unique(self@, key@, 0, i as int);
        }
        i
    }

    /// The value under `key`, if there is one.
    pub fn get(&self, key: &[u8]) -> (r: Option<&Object>)
        ensures
            match r {
                Some(o) => lookup(self@, key@) == Some(o@),
                None => lookup(self@, key@) is None,
            },
    {
        let i = self.position(key);
        if i < self.entries.len() {
            Some(&self.entries[i].1)
        } else {
            None
        }
    }

    /// Whether `key` is present.
    pub fn has(&self, key: &[u8]) -> (r: bool)
        ensures
            r == lookup(self@, key@).is_some(),
    {
        self.position(key) < self.entries.len()
    }

    /// Sets `key` to `value`.
    pub fn set(&mut self, key: Vec<u8>, value: Object)
        ensures
            final(self)@ == assign(old(self)@, key@, value@),
    {
        let i = self.position(key.as_slice());
        if i < self.entries.len() {
            self.entries[i] = (key, value);
        } else {
            self.entries.push((key, value));
        }
        assert(self@ =~= assign(old(self)@, key@, value@));
    }
}


/// The bytes of a name that is written as text.
pub fn name_bytes(name: &str) -> (v: Vec<u8>)
    ensures
        v@ == name.spec_bytes(),
{
    name.as_bytes_vec()
}

impl Dictionary {
    /// The value under the key written as `key`.
    pub fn get_named(&self, key: &str) -> (r: Option<&Object>)
        ensures
            match r {
                Some(o) => lookup(self@, key.spec_bytes()) == Some(o@),
                None => lookup(self@, key.spec_bytes()) is None,
            },
    {
        self.get(key.as_bytes())
    }

    /// Sets the key written as `key` to `value`.
    pub fn set_named(&mut self, key: &str, value: Object)
        ensures
            final(self)@ == assign(old(self)@, key.spec_bytes(), value@),
    {
        self.set(name_bytes(key), value)
    }
}

/// The bytes of a name that is written as text.
pub open spec fn nm(name: &str) -> Seq<u8> {
    name.spec_bytes()
}

impl Dictionary {
    /// A dictionary with the given entries, in their order.
    pub fn from_entries(entries: Vec<(Vec<u8>, Object)>) -> (d: Dictionary)
        ensures
            d@.len() == entries@.len(),
            forall|i: int|
                0 <= i < entries@.len() ==> (#[trigger] d@[i]) == (entries@[i].0@, entries@[i].1@),
    {
        Dictionary { entries }
    }
}

/// An entry of a dictionary under the key written as `key`.
pub fn entry(key: &str, value: Object) -> (e: (Vec<u8>, Object))
    ensures
        e.0@ == nm(key),
        e.1@ == value@,
{
    (name_bytes(key), value)
}

/// An array object with the given items.
pub fn array_of(items: Vec<Object>) -> (r: Object)
    ensures
        r@ is Array,
        r@->Array_0.len() == items@.len(),
        forall|i: int| 0 <= i < items@.len() ==> (#[trigger] r@->Array_0[i]) == items@[i]@,
{
    let r = Object::Array(items);
    assert(r@->Array_0 =~= array_view(&items));
    r
}

impl Clone for Dictionary {
    #[verifier::loop_isolation(false)]
    fn clone(&self) -> (r: Dictionary)
        ensures
            r@ == self@,
        decreases self,
    {
        let mut entries: Vec<(Vec<u8>, Object)> = Vec::new();
        let mut i: usize = 0;
        while i < self.entries.len()
            invariant
                i <= self.entries.len(),
                entries.len() == i,
                forall|j: int|
                    0 <= j < i ==> (#[trigger] entries[j]).0@ == self.entries[j].0@
                        && entries[j].1@ == self.entries[j].1@,
            decreases self.entries.len() - i,
        {
            let key = copy_bytes(self.entries[i].0.as_slice());
            let value = self.entries[i].1.clone();
            entries.push((key, value));
            i += 1;
        }
        let r = Dictionary { entries };
        assert(r@ =~= self@);
        r
    }
}

impl Clone for Stream {
    fn clone(&self) -> (r: Stream)
        ensures
            r.dict@ == self.dict@,
            r.content@ == self.content@,
        decreases self,
    {
        Stream { dict: self.dict.clone(), content: copy_bytes(self.content.as_slice()) }
    }
}

impl Clone for Object {
    #[verifier::loop_isolation(false)]
    fn clone(&self) -> (r: Object)
        ensures
            r@ == self@,
        decreases self,
    {
        match self {
            Object::Null => Object::Null,
            Object::Boolean(b) => Object::Boolean(*b),
            Object::Integer(i) => Object::Integer(*i),
            Object::Real(x) => Object::Real(*x),
            Object::Name(n) => Object::Name(copy_bytes(n.as_slice())),
            Object::String(s, hex) => Object::String(copy_bytes(s.as_slice()), *hex),
            Object::Array(items) => {
                let mut copy: Vec<Object> = Vec::new();
                let mut i: usize = 0;
                while i < items.len()
                    invariant
                        i <= items.len(),
                        copy.len() == i,
                        forall|j: int| 0 <= j < i ==> (#[trigger] copy[j])@ == items[j]@,
                    decreases items.len() - i,
                {
                    copy.push(items[i].clone());
                    i += 1;
                }
                let r = Object::Array(copy);
                assert(array_view(&copy) =~= array_view(items));
                r
            },
            Object::Dictionary(d) => Object::Dictionary(d.clone()),
            Object::Stream(s) => Object::Stream(s.clone()),
            Object::Reference(id) => Object::Reference(*id),
        }
    }
}

impl Object {
    pub fn as_i64(&self) -> (r: Option<i64>)
        ensures
            r == (match self@ {
                Value::Integer(i) => Some(i),
                _ => None,
            }),
    {
        match self {
            Object::Integer(i) => Some(*i),
            _ => None,
        }
    }

    pub fn as_name(&self) -> (r: Option<&[u8]>)
        ensures
            match r {
                Some(n) => self@ == Value::Name(n@),
                None => !(self@ is Name),
            },
    {
        match self {
            Object::Name(n) => Some(n.as_slice()),
            _ => None,
        }
    }

    pub fn as_reference(&self) -> (r: Option<ObjectId>)
        ensures
            r == (match self@ {
                Value::Reference(id) => Some(id),
                _ => None,
            }),
    {
        match self {
            Object::Reference(id) => Some(*id),
            _ => None,
        }
    }

    pub fn as_array(&self) -> (r: Option<&Vec<Object>>)
        ensures
            match r {
                Some(items) => *self == Object::Array(*items),
                None => !(self@ is Array),
            },
    {
        match self {
            Object::Array(items) => Some(items),
            _ => None,
        }
    }

    pub fn as_dict(&self) -> (r: Option<&Dictionary>)
        ensures
            match r {
                Some(d) => self@ == Value::Dictionary(d@),
                None => !(self@ is Dictionary),
            },
    {
        match self {
            Object::Dictionary(d) => Some(d),
            _ => None,
        }
    }

    pub fn as_stream(&self) -> (r: Option<&Stream>)
        ensures
            match r {
                Some(s) => self@ == Value::Stream(s.dict@, s.content@),
                None => !(self@ is Stream),
            },
    {
        match self {
            Object::Stream(s) => Some(s),
            _ => None,
        }
    }

    /// A name object from its text.
    pub fn name(text: &str) -> (r: Object)
        ensures
            r@ == Value::Name(text.spec_bytes()),
    {
        Object::Name(name_bytes(text))
    }
}

/// The largest length that a stream's `Length` entry can state.
pub open spec fn length_value(len: nat) -> i64 {
    if len <= i64::MAX {
        len as i64
    } else {
        i64::MAX
    }
}

impl Stream {
    /// A stream with the given payload; its dictionary states the payload's length.
    pub fn new(dict: Dictionary, content: Vec<u8>) -> (s: Stream)
        ensures
            s.content@ == content@,
            s.dict@ == assign(
                dict@,
                "Length".spec_bytes(),
                Value::Integer(length_value(content@.len())),
            ),
    {
        let mut dict = dict;
        let n: u64 = content.len() as u64;
        let len: i64 = if n <= 0x7fff_ffff_ffff_ffff {
            n as i64
        } else {
            i64::MAX
        };
        dict.set_named("Length", Object::Integer(len));
        Stream { dict, content }
    }
}

} // verus!
