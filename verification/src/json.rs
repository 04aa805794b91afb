//! A JSON value as the metrics' free-form `custom` fields hold it.
//!
//! Objects keep their keys unique; a number is kept in its textual form,
//! since the library never computes with it.

use vstd::prelude::*;

use crate::keyed::{entries_map, find_key, keys_unique, lemma_entries_map, lemma_len_is_dom_len, put_entry};

verus! {

/// A JSON value.
#[derive(Debug, PartialEq)]
pub enum JsonValue {
    Null,
    Bool(bool),
    /// A number, in its JSON text form.
    Number(String),
    String(String),
    Array(Vec<JsonValue>),
    Object(JsonObject),
}

/// A JSON object: string keys, each present at most once, in insertion order.
#[derive(Debug, PartialEq)]
pub struct JsonObject {
    entries: Vec<(String, JsonValue)>,
}

impl JsonObject {
    #[verifier::type_invariant]
    spec fn unique_keys(self) -> bool {
        keys_unique(self.entries@)
    }

    /// The object's contents as a map from key to value.
    pub closed spec fn view(&self) -> Map<Seq<char>, JsonValue> {
        entries_map(self.entries@)
    }

    /// The entries, in insertion order.
    pub closed spec fn entry_seq(&self) -> Seq<(String, JsonValue)> {
        self.entries@
    }

    /// An empty object.
    pub fn new() -> (res: JsonObject)
        ensures
            res.view() == Map::<Seq<char>, JsonValue>::empty(),
    {
        JsonObject { entries: Vec::new() }
    }

    /// The number of keys.
    pub fn len(&self) -> (res: usize)
        ensures
            res == self.view().dom().len(),
    {
        proof {
            use_type_invariant(self);
            lemma_len_is_dom_len(self.entries@);
        }
        self.entries.len()
    }

    /// The value stored under `key`, if any.
    pub fn get(&self, key: &str) -> (res: Option<&JsonValue>)
        ensures
            res == (if self.view().contains_key(key@) {
                Some(&self.view()[key@])
            } else {
                None
            }),
    {
        proof {
            use_type_invariant(self);
            lemma_entries_map(self.entries@);
        }
        match find_key(&self.entries, key) {
            Some(i) => Some(&self.entries[i].1),
            None => None,
        }
    }

    /// Store `value` under `key`, replacing any value stored there before.
    pub fn insert(&mut self, key: String, value: JsonValue)
        ensures
            final(self).view() == old(self).view().insert(key@, value),
    {
        proof {
            use_type_invariant(&*self);
        }
        let mut entries: Vec<(String, JsonValue)> = Vec::new();
        std::mem::swap(&mut entries, &mut self.entries);
        put_entry(&mut entries, key, value);
        self.entries = entries;
    }

    /// Give up the object for its entries, in insertion order.
    pub fn into_entries(self) -> (res: Vec<(String, JsonValue)>)
        ensures
            res@ == self.entry_seq(),
            keys_unique(res@),
            entries_map(res@) == self.view(),
    {
        proof {
            use_type_invariant(&self);
        }
        self.entries
    }

    /// The entries, in insertion order.
    pub fn entries(&self) -> (res: &Vec<(String, JsonValue)>)
        ensures
            res@ == self.entry_seq(),
            keys_unique(res@),
            entries_map(res@) == self.view(),
    {
        proof {
            use_type_invariant(self);
        }
        &self.entries
    }
}

impl JsonValue {
    /// The string stored under `key` when this is an object holding a string
    /// there; `None` otherwise.
    pub open spec fn spec_str_field(&self, key: Seq<char>) -> Option<Seq<char>> {
        match self {
            JsonValue::Object(o) => if o.view().contains_key(key) {
                match o.view()[key] {
                    JsonValue::String(s) => Some(s@),
                    _ => None,
                }
            } else {
                None
            },
            _ => None,
        }
    }

    /// The string stored under `key`, as `value.get(key).and_then(as_str)`
    /// gives it: `None` unless this is an object holding a string there.
    pub fn str_field(&self, key: &str) -> (res: Option<String>)
        ensures
            res matches Some(s) ==> self.spec_str_field(key@) == Some(s@),
            res is None ==> self.spec_str_field(key@) is None,
    {
        match self {
            JsonValue::Object(o) => match o.get(key) {
                Some(JsonValue::String(s)) => Some(s.clone()),
                _ => None,
            },
            _ => None,
        }
    }
}

/// `b` is a structural copy of `a`: the same variant holding the same
/// boolean, number text or string, arrays whose items are copies one by one,
/// or objects with the same keys in the same order holding copied values.
pub open spec fn json_same(a: JsonValue, b: JsonValue) -> bool
    decreases a, 1nat,
{
    match a {
        JsonValue::Null => b is Null,
        JsonValue::Bool(x) => b == JsonValue::Bool(x),
        JsonValue::Number(x) => match b {
            JsonValue::Number(y) => y@ == x@,
            _ => false,
        },
        JsonValue::String(x) => match b {
            JsonValue::String(y) => y@ == x@,
            _ => false,
        },
        JsonValue::Array(xs) => match b {
            JsonValue::Array(ys) => items_same(xs@, ys@),
            _ => false,
        },
        JsonValue::Object(x) => match b {
            JsonValue::Object(y) => entries_same(x.entry_seq(), y.entry_seq()),
            _ => false,
        },
    }
}

/// `ys` is `xs` copied item by item.
pub open spec fn items_same(xs: Seq<JsonValue>, ys: Seq<JsonValue>) -> bool
    decreases xs, 0nat,
{
    &&& xs.len() == ys.len()
    &&& xs.len() > 0 ==> {
        &&& items_same(xs.drop_last(), ys.drop_last())
        &&& json_same(xs.last(), ys.last())
    }
}

/// `ys` has the keys of `xs` in the same order, each holding a copy of the
/// value.
pub open spec fn entries_same(xs: Seq<(String, JsonValue)>, ys: Seq<(String, JsonValue)>) -> bool
    decreases xs, 0nat,
{
    &&& xs.len() == ys.len()
    &&& xs.len() > 0 ==> {
        &&& entries_same(xs.drop_last(), ys.drop_last())
        &&& xs.last().0@ == ys.last().0@
        &&& json_same(xs.last().1, ys.last().1)
    }
}

/// `y` is a structural copy of `x`.
pub open spec fn objects_same(x: JsonObject, y: JsonObject) -> bool {
    entries_same(x.entry_seq(), y.entry_seq())
}

proof fn lemma_entries_same_keys(xs: Seq<(String, JsonValue)>, ys: Seq<(String, JsonValue)>)
    requires
        entries_same(xs, ys),
    ensures
        forall|i: int| 0 <= i < xs.len() ==> #[trigger] xs[i].0@ == ys[i].0@,
    decreases xs.len(),
{
    if xs.len() > 0 {
        lemma_entries_same_keys(xs.drop_last(), ys.drop_last());
        assert forall|i: int| 0 <= i < xs.len() implies #[trigger] xs[i].0@ == ys[i].0@ by {
            if i < xs.len() - 1 {
                assert(xs.drop_last()[i] == xs[i]);
                assert(ys.drop_last()[i] == ys[i]);
            }
        }
    }
}

proof fn lemma_objects_same_keys(x: JsonObject, y: JsonObject)
    requires
        objects_same(x, y),
        keys_unique(x.entries@),
        keys_unique(y.entries@),
    ensures
        x.view().dom() == y.view().dom(),
{
    lemma_entries_same_keys(x.entries@, y.entries@);
    lemma_entries_map(x.entries@);
    lemma_entries_map(y.entries@);
    assert forall|k: Seq<char>| x.view().dom().contains(k) == y.view().dom().contains(k) by {
        if x.view().dom().contains(k) {
            let i = choose|i: int| 0 <= i < x.entries@.len() && x.entries@[i].0@ == k;
            assert(x.entries@[i].0@ == y.entries@[i].0@);
        }
        if y.view().dom().contains(k) {
            let i = choose|i: int| 0 <= i < y.entries@.len() && y.entries@[i].0@ == k;
            assert(x.entries@[i].0@ == y.entries@[i].0@);
        }
    }
    assert(x.view().dom() =~= y.view().dom());
}

/// A structural copy of a JSON value.
pub fn copy_json(v: &JsonValue) -> (res: JsonValue)
    ensures
        json_same(*v, res),
    decreases v, 1nat,
{
    match v {
        JsonValue::Null => JsonValue::Null,
        JsonValue::Bool(b) => JsonValue::Bool(*b),
        JsonValue::Number(n) => JsonValue::Number(n.clone()),
        JsonValue::String(s) => JsonValue::String(s.clone()),
        JsonValue::Array(items) => {
            let mut out: Vec<JsonValue> = Vec::new();
            let mut i: usize = 0;
            assert(items@.take(0) =~= Seq::<JsonValue>::empty());
            while i < items.len()
                invariant
                    i <= items@.len(),
                    *v == JsonValue::Array(*items),
                    items_same(items@.take(i as int), out@),
                decreases items.len() - i,
            {
                proof {
                    assert(decreases_to!(*v => (*v)->Array_0));
                    assert(decreases_to!(*items => items@));
                    assert(decreases_to!(items@ => items@[i as int]));
                }
                let item = copy_json(&items[i]);
                let ghost before = out@;
                out.push(item);
                proof {
                    assert(items@.take(i + 1).drop_last() =~= items@.take(i as int));
                    assert(out@.drop_last() =~= before);
                    assert(items@.take(i + 1).last() == items@[i as int]);
                }
                i = i + 1;
            }
            proof {
                assert(items@.take(items@.len() as int) =~= items@);
            }
            JsonValue::Array(out)
        },
        JsonValue::Object(o) => {
            proof {
                assert(decreases_to!(*v => (*v)->Object_0));
            }
            let res = JsonValue::Object(copy_object(o));
            assert(json_same(*v, res));
            res
        },
    }
}

/// A structural copy of a JSON object: the same keys in the same order,
/// each holding a copy of the value.
pub fn copy_object(o: &JsonObject) -> (res: JsonObject)
    ensures
        objects_same(*o, res),
        res.view().dom() == o.view().dom(),
    decreases o, 0nat,
{
    proof {
        use_type_invariant(o);
    }
    let entries = &o.entries;
    let mut out: Vec<(String, JsonValue)> = Vec::new();
    let mut i: usize = 0;
    while i < entries.len()
        invariant
            i <= entries@.len(),
            *entries == o.entries,
            keys_unique(entries@),
            out@.len() == i,
            forall|j: int| 0 <= j < i ==> #[trigger] out@[j].0@ == entries@[j].0@,
            entries_same(entries@.take(i as int), out@),
        decreases entries.len() - i,
    {
        proof {
            let e = entries@[i as int];
            assert(decreases_to!(*o => o.entries));
            assert(decreases_to!(o.entries => o.entries@));
            assert(decreases_to!(o.entries@ => e));
            assert(decreases_to!(e => e.1));
        }
        let value = copy_json(&entries[i].1);
        let ghost before = out@;
        out.push((entries[i].0.clone(), value));
        proof {
            assert(entries@.take(i + 1).drop_last() =~= entries@.take(i as int));
            assert(out@.drop_last() =~= before);
            assert(entries@.take(i + 1).last() == entries@[i as int]);
        }
        i = i + 1;
    }
    proof {
        assert(entries@.take(entries@.len() as int) =~= entries@);
    }
    proof {
        assert forall|a: int, b: int| 0 <= a < b < out@.len() implies out@[a].0@ != out@[b].0@ by {
            assert(out@[a].0@ == entries@[a].0@ && out@[b].0@ == entries@[b].0@);
        }
    }
    let res = JsonObject { entries: out };
    proof {
        lemma_objects_same_keys(*o, res);
    }
    res
}

impl Clone for JsonValue {
    /// A structural copy.
    fn clone(&self) -> (res: Self)
        ensures
            json_same(*self, res),
    {
        copy_json(self)
    }
}

impl Clone for JsonObject {
    /// A structural copy: the same keys in the same order, each holding a
    /// copy of the value.
    fn clone(&self) -> (res: Self)
        ensures
            objects_same(*self, res),
            res.view().dom() == self.view().dom(),
    {
        copy_object(self)
    }
}

/// Copy every entry of the object `src` into `target`, if both are objects.
pub fn merge_objects(target: &mut JsonValue, src: JsonValue)
    ensures
        match (*old(target), src) {
            (JsonValue::Object(t), JsonValue::Object(s)) => match *final(target) {
                JsonValue::Object(u) => u.view() == t.view().union_prefer_right(s.view()),
                _ => false,
            },
            _ => *final(target) == *old(target),
        },
{
    if let JsonValue::Object(t) = target {
        if let JsonValue::Object(s) = src {
            let ghost all = s.entry_seq();
            let ghost t0 = t.view();
            let mut rest = s.into_entries();
            let ghost mut done: int = 0;
            assert(all.take(0) =~= Seq::<(String, JsonValue)>::empty());
            assert(t0.union_prefer_right(Map::empty()) =~= t0);
            while rest.len() > 0
                invariant
                    0 <= done <= all.len(),
                    rest@ == all.skip(done),
                    t.view() == t0.union_prefer_right(entries_map(all.take(done))),
                decreases rest.len(),
            {
                let (k, v) = rest.remove(0);
                proof {
                    assert(all.take(done + 1).drop_last() =~= all.take(done));
                    assert(all.take(done + 1).last() == all[done]);
                    assert(rest@ =~= all.skip(done + 1));
                }
                t.insert(k, v);
                proof {
                    done = done + 1;
                    assert(t.view() =~= t0.union_prefer_right(entries_map(all.take(done))));
                }
            }
            assert(all.take(all.len() as int) =~= all);
        }
    }
}

} // verus!
