use vstd::prelude::*;

verus! {

/// Mathematical model of a resolved value: keys and strings as character
/// sequences, objects as ordered sequences of entries.
pub ghost enum Val {
    Object(Seq<(Seq<char>, Val)>),
    Array(Seq<Val>),
    Str(Seq<char>),
    Integer(i64),
    Float(Seq<char>),
    Boolean(bool),
    Null,
}

/// A fully resolved configuration value.
///
/// Objects keep their entries in insertion order. A float is kept as the
/// text of its literal; turning it into a machine float is left to callers.
#[derive(Debug, PartialEq)]
pub enum Value {
    Object(ObjectMap),
    Array(Vec<Value>),
    String(String),
    Integer(i64),
    Float(String),
    Boolean(bool),
    Null,
}

/// The entries of an object, in insertion order, keys unique. Held in an
/// `indexmap::IndexMap`, which Verus cannot take as a field of a type it
/// holds itself. `==` compares as maps do, whatever the order of entries;
/// `to_entries` gives the order.
#[verifier::external_body]
#[derive(Debug, PartialEq)]
pub struct ObjectMap {
    inner: indexmap::IndexMap<String, Value>,
}

/// What an object map holds, in order.
pub uninterp spec fn object_entries(m: ObjectMap) -> Seq<(Seq<char>, Val)>;

/// No key occurs twice.
pub open spec fn keys_unique(o: Seq<(Seq<char>, Val)>) -> bool {
    forall|i: int, j: int| 0 <= i < j < o.len() ==> o[i].0 != o[j].0
}

impl Value {
    pub open spec fn view(&self) -> Val
        decreases self,
    {
        match self {
            Value::Object(m) => Val::Object(object_entries(*m)),
            Value::Array(vs) => Val::Array(
                Seq::new(
                    vs.len() as nat,
                    |i: int|
                        if 0 <= i < vs.len() {
                            vs[i].view()
                        } else {
                            Val::Null
                        },
                ),
            ),
            Value::String(s) => Val::Str(s@),
            Value::Integer(n) => Val::Integer(*n),
            Value::Float(s) => Val::Float(s@),
            Value::Boolean(b) => Val::Boolean(*b),
            Value::Null => Val::Null,
        }
    }
}

impl ObjectMap {
    /// Relies on `IndexMap::new`: a map with no entries.
    #[verifier::external_body]
    pub(crate) fn new() -> (r: ObjectMap)
        ensures
            object_entries(r) == Seq::<(Seq<char>, Val)>::empty(),
    {
        ObjectMap { inner: indexmap::IndexMap::new() }
    }

    /// Relies on `IndexMap::iter`: references to the entries, in order; the
    /// keys of an `IndexMap` are unique.
    #[verifier::external_body]
    pub(crate) fn entry_refs(&self) -> (r: Vec<(&String, &Value)>)
        ensures
            r@.len() == object_entries(*self).len(),
            forall|i: int| 0 <= i < r@.len() ==> (#[trigger] r@[i].0@, r@[i].1@) == object_entries(*self)[i],
            forall|i: int, j: int| 0 <= i < j < r@.len() ==> #[trigger] r@[i].0@ != #[trigger] r@[j].0@,
    {
        self.inner.iter().collect()
    }

    /// Relies on `IndexMap::insert`: an existing key keeps its place and
    /// takes the new value, and its old value is returned; a new key is
    /// appended.
    #[verifier::external_body]
    pub(crate) fn insert(&mut self, k: String, v: Value) -> (r: Option<Value>)
        ensures
            object_entries(*final(self)) == obj_insert(object_entries(*old(self)), k@, v@),
            match r {
                Some(old_v) => obj_get(object_entries(*old(self)), k@) == Some(old_v@),
                None => obj_get(object_entries(*old(self)), k@) is None,
            },
    {
        self.inner.insert(k, v)
    }

    /// Relies on `IntoIterator` of `IndexMap`: the entries, in order.
    #[verifier::external_body]
    pub(crate) fn into_entries(self) -> (r: Vec<(String, Value)>)
        ensures
            entries_view(r@) == object_entries(self),
            keys_unique(entries_view(r@)),
    {
        self.inner.into_iter().collect()
    }
}

/// The model of an object's entry list.
pub open spec fn entries_view(es: Seq<(String, Value)>) -> Seq<(Seq<char>, Val)> {
    Seq::new(es.len(), |i: int| (es[i].0@, es[i].1@))
}

/// The model of an array's element list.
pub open spec fn values_view(vs: Seq<Value>) -> Seq<Val> {
    Seq::new(vs.len(), |i: int| vs[i]@)
}

pub proof fn lemma_array_view(vs: Vec<Value>)
    ensures
        Value::Array(vs)@ == Val::Array(values_view(vs@)),
{
    let v = Value::Array(vs)@;
    assert(v->Array_0 =~= values_view(vs@));
}

/// Position of the first entry with key `k`, or -1 when there is none.
pub open spec fn index_of_key(o: Seq<(Seq<char>, Val)>, k: Seq<char>) -> int
    decreases o.len(),
{
    if o.len() == 0 {
        -1
    } else {
        let j = index_of_key(o.drop_last(), k);
        if j >= 0 {
            j
        } else if o.last().0 == k {
            o.len() - 1
        } else {
            -1
        }
    }
}

/// Insertion into an ordered object: an existing key keeps its place and
/// takes the new value; a new key is appended.
pub open spec fn obj_insert(o: Seq<(Seq<char>, Val)>, k: Seq<char>, v: Val) -> Seq<(Seq<char>, Val)> {
    let j = index_of_key(o, k);
    if j >= 0 {
        o.update(j, (k, v))
    } else {
        o.push((k, v))
    }
}

/// Inserts every entry of `other` into `o`, in order (last write wins).
pub open spec fn obj_extend(o: Seq<(Seq<char>, Val)>, other: Seq<(Seq<char>, Val)>) -> Seq<(Seq<char>, Val)>
    decreases other.len(),
{
    if other.len() == 0 {
        o
    } else {
        obj_insert(obj_extend(o, other.drop_last()), other.last().0, other.last().1)
    }
}

/// The value stored under `k` in the model of an object, if any.
pub open spec fn obj_get(o: Seq<(Seq<char>, Val)>, k: Seq<char>) -> Option<Val> {
    let j = index_of_key(o, k);
    if j >= 0 {
        Some(o[j].1)
    } else {
        None
    }
}

pub proof fn lemma_index_of_key_range(o: Seq<(Seq<char>, Val)>, k: Seq<char>)
    ensures
        -1 <= index_of_key(o, k) < o.len(),
        index_of_key(o, k) >= 0 ==> o[index_of_key(o, k)].0 == k,
        index_of_key(o, k) == -1 ==> forall|i: int| 0 <= i < o.len() ==> o[i].0 != k,
        forall|i: int| 0 <= i < index_of_key(o, k) ==> o[i].0 != k,
    decreases o.len(),
{
    if o.len() > 0 {
        lemma_index_of_key_range(o.drop_last(), k);
        assert(forall|i: int| 0 <= i < o.len() - 1 ==> o.drop_last()[i] == o[i]);
    }
}

/// The first entry with key `k` is the one at `j`.
pub proof fn lemma_index_of_key_at(o: Seq<(Seq<char>, Val)>, k: Seq<char>, j: int)
    requires
        0 <= j < o.len(),
        o[j].0 == k,
        forall|i: int| 0 <= i < j ==> o[i].0 != k,
    ensures
        index_of_key(o, k) == j,
    decreases o.len(),
{
    if j < o.len() - 1 {
        lemma_index_of_key_at(o.drop_last(), k, j);
    } else {
        lemma_index_of_key_absent(o.drop_last(), k);
    }
}

/// No entry has key `k`.
pub proof fn lemma_index_of_key_absent(o: Seq<(Seq<char>, Val)>, k: Seq<char>)
    requires
        forall|i: int| 0 <= i < o.len() ==> o[i].0 != k,
    ensures
        index_of_key(o, k) == -1,
    decreases o.len(),
{
    if o.len() > 0 {
        lemma_index_of_key_absent(o.drop_last(), k);
    }
}

/// After inserting `v` under `k`, the object maps `k` to `v`.
pub proof fn lemma_obj_get_insert_same(o: Seq<(Seq<char>, Val)>, k: Seq<char>, v: Val)
    ensures
        obj_get(obj_insert(o, k, v), k) == Some(v),
{
    lemma_index_of_key_range(o, k);
    let j = index_of_key(o, k);
    let o2 = obj_insert(o, k, v);
    if j >= 0 {
        lemma_index_of_key_at(o2, k, j);
    } else {
        lemma_index_of_key_at(o2, k, o.len() as int);
    }
}

/// Inserting under another key leaves what `k` maps to as it was.
pub proof fn lemma_obj_get_insert_other(o: Seq<(Seq<char>, Val)>, k2: Seq<char>, v: Val, k: Seq<char>)
    requires
        k2 != k,
    ensures
        obj_get(obj_insert(o, k2, v), k) == obj_get(o, k),
{
    lemma_index_of_key_range(o, k2);
    lemma_index_of_key_range(o, k);
    let o2 = obj_insert(o, k2, v);
    let j = index_of_key(o, k);
    if j >= 0 {
        lemma_index_of_key_at(o2, k, j);
    } else {
        lemma_index_of_key_absent(o2, k);
    }
}

/// Size of a value: one for each node of its tree.
pub open spec fn val_size(v: Val) -> nat
    decreases v,
{
    match v {
        Val::Object(es) => 1 + entries_size(es, es.len() as int),
        Val::Array(vs) => 1 + vals_size(vs, vs.len() as int),
        _ => 1,
    }
}

pub open spec fn entries_size(es: Seq<(Seq<char>, Val)>, n: int) -> nat
    decreases es, n,
{
    if n <= 0 || n > es.len() {
        0
    } else {
        entries_size(es, n - 1) + val_size(es[n - 1].1)
    }
}

pub open spec fn vals_size(vs: Seq<Val>, n: int) -> nat
    decreases vs, n,
{
    if n <= 0 || n > vs.len() {
        0
    } else {
        vals_size(vs, n - 1) + val_size(vs[n - 1])
    }
}

pub proof fn lemma_entry_smaller(es: Seq<(Seq<char>, Val)>, n: int, i: int)
    requires
        0 <= i < n <= es.len(),
    ensures
        val_size(es[i].1) <= entries_size(es, n),
    decreases n,
{
    if i < n - 1 {
        lemma_entry_smaller(es, n - 1, i);
    }
}

pub proof fn lemma_element_smaller(vs: Seq<Val>, n: int, i: int)
    requires
        0 <= i < n <= vs.len(),
    ensures
        val_size(vs[i]) <= vals_size(vs, n),
    decreases n,
{
    if i < n - 1 {
        lemma_element_smaller(vs, n - 1, i);
    }
}

/// Inserting twice under one key is inserting the second value.
pub proof fn lemma_insert_twice(o: Seq<(Seq<char>, Val)>, k: Seq<char>, v1: Val, v2: Val)
    ensures
        obj_insert(obj_insert(o, k, v1), k, v2) == obj_insert(o, k, v2),
{
    lemma_index_of_key_range(o, k);
    let j = index_of_key(o, k);
    let o1 = obj_insert(o, k, v1);
    if j >= 0 {
        lemma_index_of_key_at(o1, k, j);
        assert(o1.update(j, (k, v2)) =~= o.update(j, (k, v2)));
    } else {
        lemma_index_of_key_at(o1, k, o.len() as int);
        assert(o1.update(o.len() as int, (k, v2)) =~= o.push((k, v2)));
    }
}

/// Appending an entry whose key is new is an insertion.
pub proof fn lemma_insert_new_key(o: Seq<(Seq<char>, Val)>, k: Seq<char>, v: Val)
    requires
        forall|i: int| 0 <= i < o.len() ==> o[i].0 != k,
    ensures
        obj_insert(o, k, v) == o.push((k, v)),
{
    lemma_index_of_key_absent(o, k);
}

/// Inserts every entry of `other` into `m`, in order (last write wins).
pub fn object_extend(m: &mut ObjectMap, other: &ObjectMap)
    ensures
        object_entries(*final(m)) == obj_extend(object_entries(*old(m)), object_entries(*other)),
{
    let ghost o = object_entries(*m);
    let ghost ov = object_entries(*other);
    let refs = other.entry_refs();
    let mut i: usize = 0;
    while i < refs.len()
        invariant
            i <= refs.len(),
            refs@.len() == ov.len(),
            forall|j: int| 0 <= j < refs@.len() ==> (#[trigger] refs@[j].0@, refs@[j].1@) == ov[j],
            object_entries(*m) == obj_extend(o, ov.subrange(0, i as int)),
        decreases refs.len() - i,
    {
        assert(ov.subrange(0, i + 1).drop_last() =~= ov.subrange(0, i as int));
        assert((refs@[i as int].0@, refs@[i as int].1@) == ov[i as int]);
        let k = refs[i].0.clone();
        let v = refs[i].1.deep_clone();
        m.insert(k, v);
        i = i + 1;
    }
    assert(ov.subrange(0, i as int) =~= ov);
}

/// A copy of an object map with the same entries.
pub fn clone_object(m: &ObjectMap) -> (r: ObjectMap)
    ensures
        object_entries(r) == object_entries(*m),
    decreases val_size(Val::Object(object_entries(*m))), 0nat,
{
    let ghost ov = object_entries(*m);
    let refs = m.entry_refs();
    let mut out = ObjectMap::new();
    let mut i: usize = 0;
    while i < refs.len()
        invariant
            i <= refs.len(),
            ov == object_entries(*m),
            refs@.len() == ov.len(),
            forall|j: int| 0 <= j < refs@.len() ==> (#[trigger] refs@[j].0@, refs@[j].1@) == ov[j],
            forall|a: int, b: int| 0 <= a < b < refs@.len() ==> #[trigger] refs@[a].0@ != #[trigger] refs@[b].0@,
            object_entries(out) == ov.subrange(0, i as int),
        decreases refs.len() - i,
    {
        assert((refs@[i as int].0@, refs@[i as int].1@) == ov[i as int]);
        proof {
            lemma_entry_smaller(ov, ov.len() as int, i as int);
            assert forall|j: int| 0 <= j < i implies ov.subrange(0, i as int)[j].0 != ov[i as int].0 by {
                assert((refs@[j].0@, refs@[j].1@) == ov[j]);
            }
            lemma_insert_new_key(ov.subrange(0, i as int), ov[i as int].0, ov[i as int].1);
        }
        let k = refs[i].0.clone();
        let v = refs[i].1.deep_clone();
        out.insert(k, v);
        i = i + 1;
        assert(object_entries(out) =~= ov.subrange(0, i as int));
    }
    assert(ov.subrange(0, i as int) =~= ov);
    out
}

/// A copy of an element list with the same model.
pub fn clone_values(vs: &Vec<Value>) -> (r: Vec<Value>)
    ensures
        values_view(r@) == values_view(vs@),
    decreases val_size(Val::Array(values_view(vs@))), 0nat,
{
    let ghost vv = values_view(vs@);
    let mut out: Vec<Value> = Vec::new();
    let mut i: usize = 0;
    while i < vs.len()
        invariant
            i <= vs.len(),
            vv == values_view(vs@),
            values_view(out@) =~= vv.subrange(0, i as int),
        decreases vs.len() - i,
    {
        proof {
            lemma_element_smaller(vv, vv.len() as int, i as int);
        }
        let ghost before = out@;
        out.push(vs[i].deep_clone());
        proof {
            assert(values_view(before).len() == i);
            assert(forall|j: int| 0 <= j < i ==> out@[j] == before[j]);
            assert(forall|j: int| 0 <= j < i ==> values_view(before)[j] == values_view(out@)[j]);
            assert(values_view(out@)[i as int] == vv[i as int]);
        }
        i = i + 1;
    }
    assert(vv.subrange(0, vs.len() as int) =~= vv);
    out
}

impl ObjectMap {
    /// An object map holding the given entries, inserted in order (a
    /// repeated key keeps its first place and takes its last value).
    pub fn from_entries(es: Vec<(String, Value)>) -> (r: ObjectMap)
        ensures
            object_entries(r) == obj_extend(Seq::empty(), entries_view(es@)),
    {
        let ghost ev = entries_view(es@);
        let mut out = ObjectMap::new();
        let mut i: usize = 0;
        assert(ev.subrange(0, 0) =~= Seq::<(Seq<char>, Val)>::empty());
        while i < es.len()
            invariant
                i <= es.len(),
                ev == entries_view(es@),
                object_entries(out) == obj_extend(Seq::empty(), ev.subrange(0, i as int)),
            decreases es.len() - i,
        {
            assert(ev.subrange(0, i + 1).drop_last() =~= ev.subrange(0, i as int));
            assert(ev.subrange(0, i + 1).last() == ev[i as int]);
            let k = es[i].0.clone();
            let v = es[i].1.deep_clone();
            out.insert(k, v);
            i = i + 1;
        }
        assert(ev.subrange(0, i as int) =~= ev);
        out
    }

    /// The entries, in order.
    pub fn to_entries(&self) -> (r: Vec<(String, Value)>)
        ensures
            entries_view(r@) == object_entries(*self),
    {
        let ghost ov = object_entries(*self);
        let refs = self.entry_refs();
        let mut out: Vec<(String, Value)> = Vec::new();
        let mut i: usize = 0;
        while i < refs.len()
            invariant
                i <= refs.len(),
                refs@.len() == ov.len(),
                forall|j: int| 0 <= j < refs@.len() ==> (#[trigger] refs@[j].0@, refs@[j].1@) == ov[j],
                entries_view(out@) =~= ov.subrange(0, i as int),
            decreases refs.len() - i,
        {
            assert((refs@[i as int].0@, refs@[i as int].1@) == ov[i as int]);
            let k = refs[i].0.clone();
            let v = refs[i].1.deep_clone();
            let ghost before = out@;
            assert(entries_view(before).len() == i);
            out.push((k, v));
            proof {
                assert(forall|j: int| 0 <= j < i ==> out@[j] == before[j]);
                assert(forall|j: int| 0 <= j < i ==> entries_view(before)[j] == entries_view(out@)[j]);
            }
            i = i + 1;
        }
        assert(ov.subrange(0, i as int) =~= ov);
        out
    }
}

impl Value {
    /// A copy of this value with the same model.
    pub fn deep_clone(&self) -> (r: Value)
        ensures
            r@ == self@,
        decreases val_size(self@), 1nat,
    {
        match self {
            Value::Object(m) => Value::Object(clone_object(m)),
            Value::Array(vs) => {
                proof {
                    lemma_array_view(*vs);
                }
                let out = clone_values(vs);
                proof {
                    lemma_array_view(out);
                }
                Value::Array(out)
            },
            Value::String(s) => Value::String(s.clone()),
            Value::Integer(n) => Value::Integer(*n),
            Value::Float(s) => Value::Float(s.clone()),
            Value::Boolean(b) => Value::Boolean(*b),
            Value::Null => Value::Null,
        }
    }
}

} // verus!
