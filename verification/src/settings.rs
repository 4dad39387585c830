//! Nested key-value configuration values.
//!
//! A [`Data`] value maps string keys to scalars, nested objects or arrays;
//! an [`Array`] is an ordered sequence of objects.  Both own their contents
//! exclusively: setting a nested value into a parent consumes it, and a key
//! or string value with an embedded NUL is rejected before it could reach
//! the native layer.
//!
//! The mathematical model of a value is [`ValModel`]; an object is modelled
//! both as its ordered entry sequence (`obj_model`) and as the map it
//! denotes (`map_model`).

use vstd::prelude::*;
use vstd::string::StrSliceExecFns;
use vstd::string::StringExecFns;

use crate::errors::{Error, LookupKind};

verus! {

broadcast use vstd::std_specs::vec::axiom_vec_index_decreases, vstd::seq::axiom_seq_index_decreases;

/// Model of a single configuration value.
pub enum ValModel {
    /// A string scalar.
    S(Seq<char>),
    /// An integer scalar.
    I(int),
    /// A boolean scalar.
    B(bool),
    /// A nested object, as its ordered entry sequence.
    O(Seq<(Seq<char>, ValModel)>),
    /// An array of objects, each as its ordered entry sequence.
    A(Seq<Seq<(Seq<char>, ValModel)>>),
}

/// The string holds no embedded NUL, so it can cross a native boundary.
pub open spec fn nul_free(s: Seq<char>) -> bool {
    forall|i: int| 0 <= i < s.len() ==> s[i] != '\0'
}

/// No key occurs twice in the entry sequence.
pub open spec fn keys_unique(entries: Seq<(Seq<char>, ValModel)>) -> bool {
    forall|i: int, j: int|
        0 <= i < j < entries.len() ==> entries[i].0 != entries[j].0
}

/// Well-formedness of a value model: every key and string NUL-free,
/// every object's keys unique.
pub open spec fn wf_val(v: ValModel) -> bool
    decreases v,
{
    match v {
        ValModel::S(s) => nul_free(s),
        ValModel::I(n) => i64::MIN as int <= n <= i64::MAX as int,
        ValModel::B(_) => true,
        ValModel::O(entries) => wf_obj(entries),
        ValModel::A(items) => wf_items(items),
    }
}

/// Well-formedness of an array's items.
pub open spec fn wf_items(items: Seq<Seq<(Seq<char>, ValModel)>>) -> bool
    decreases items,
{
    forall|i: int| 0 <= i < items.len() ==> wf_obj(#[trigger] items[i])
}

/// Well-formedness of an object's entry sequence.
pub open spec fn wf_obj(entries: Seq<(Seq<char>, ValModel)>) -> bool
    decreases entries,
{
    &&& keys_unique(entries)
    &&& forall|i: int| 0 <= i < entries.len() ==> nul_free((#[trigger] entries[i]).0)
    &&& forall|i: int| 0 <= i < entries.len() ==> wf_val((#[trigger] entries[i]).1)
}

/// The map an entry sequence denotes; on duplicate keys the later entry
/// wins, matching whole-value replacement semantics.
pub open spec fn pairs_to_map(entries: Seq<(Seq<char>, ValModel)>) -> Map<Seq<char>, ValModel>
    decreases entries.len(),
{
    if entries.len() == 0 {
        Map::empty()
    } else {
        pairs_to_map(entries.drop_last()).insert(entries.last().0, entries.last().1)
    }
}

/// Is some entry keyed `k`?
pub open spec fn has_key(entries: Seq<(Seq<char>, ValModel)>, k: Seq<char>) -> bool {
    exists|i: int| 0 <= i < entries.len() && entries[i].0 == k
}

/// The position of the entry keyed `k` (unique when keys are unique).
pub open spec fn key_index(entries: Seq<(Seq<char>, ValModel)>, k: Seq<char>) -> int {
    choose|i: int| 0 <= i < entries.len() && entries[i].0 == k
}

/// Replace the entry keyed `k` in place, or append a new one: the entry
/// order of all other keys is kept.
pub open spec fn upsert(
    entries: Seq<(Seq<char>, ValModel)>,
    k: Seq<char>,
    v: ValModel,
) -> Seq<(Seq<char>, ValModel)> {
    if has_key(entries, k) {
        entries.update(key_index(entries, k), (k, v))
    } else {
        entries.push((k, v))
    }
}

/// Appending an entry inserts its binding into the denoted map.
pub proof fn lemma_pairs_to_map_push(s: Seq<(Seq<char>, ValModel)>, k: Seq<char>, v: ValModel)
    ensures
        pairs_to_map(s.push((k, v))) == pairs_to_map(s).insert(k, v),
{
    assert(s.push((k, v)).drop_last() =~= s);
}

/// With unique keys, replacing the entry keyed `k` in place also just
/// inserts the binding into the denoted map.
pub proof fn lemma_pairs_to_map_update(s: Seq<(Seq<char>, ValModel)>, k: Seq<char>, v: ValModel)
    requires
        keys_unique(s),
        has_key(s, k),
    ensures
        pairs_to_map(s.update(key_index(s, k), (k, v))) == pairs_to_map(s).insert(k, v),
    decreases s.len(),
{
    let i = key_index(s, k);
    let t = s.update(i, (k, v));
    if i == s.len() - 1 {
        assert(t.drop_last() =~= s.drop_last());
        assert(pairs_to_map(t) == pairs_to_map(s.drop_last()).insert(k, v));
        assert(s.last().0 == k);
        assert(pairs_to_map(s).insert(k, v) =~= pairs_to_map(s.drop_last()).insert(k, v));
    } else {
        let sd = s.drop_last();
        assert(has_key(sd, k) && keys_unique(sd)) by {
            assert(sd[i] == s[i]);
        }
        assert(key_index(sd, k) == i) by {
            let j = key_index(sd, k);
            assert(sd[j].0 == k && sd[i].0 == k);
        }
        lemma_pairs_to_map_update(sd, k, v);
        assert(t.drop_last() =~= sd.update(i, (k, v)));
        assert(t.last() == s.last());
        assert(pairs_to_map(t) == pairs_to_map(sd).insert(k, v).insert(s.last().0, s.last().1));
        // the two inserted keys differ, so the inserts commute
        assert(s.last().0 != k) by {
            assert(s[i].0 == k);
        }
        assert(pairs_to_map(sd).insert(k, v).insert(s.last().0, s.last().1) =~= pairs_to_map(
            sd,
        ).insert(s.last().0, s.last().1).insert(k, v));
    }
}

/// The denoted map contains exactly the entry keys; with unique keys each
/// key maps to its entry's value.
pub proof fn lemma_pairs_to_map_props(s: Seq<(Seq<char>, ValModel)>)
    ensures
        forall|k: Seq<char>| pairs_to_map(s).contains_key(k) <==> has_key(s, k),
        keys_unique(s) ==> forall|i: int|
            0 <= i < s.len() ==> pairs_to_map(s).contains_key(#[trigger] s[i].0)
                && pairs_to_map(s)[s[i].0] == s[i].1,
    decreases s.len(),
{
    if s.len() > 0 {
        lemma_pairs_to_map_props(s.drop_last());
        assert forall|k: Seq<char>| pairs_to_map(s).contains_key(k) implies has_key(s, k) by {
            if k == s.last().0 {
                assert(s[s.len() - 1].0 == k);
            } else {
                assert(pairs_to_map(s.drop_last()).contains_key(k));
                assert(has_key(s.drop_last(), k));
                let j = key_index(s.drop_last(), k);
                assert(0 <= j < s.drop_last().len() && s.drop_last()[j].0 == k);
                assert(s[j].0 == k);
            }
        }
        assert forall|k: Seq<char>| has_key(s, k) implies pairs_to_map(s).contains_key(k) by {
            let j = key_index(s, k);
            assert(0 <= j < s.len() && s[j].0 == k);
            if j < s.len() - 1 {
                assert(s.drop_last()[j].0 == k);
                assert(has_key(s.drop_last(), k));
                assert(pairs_to_map(s.drop_last()).contains_key(k));
            } else {
                assert(k == s.last().0);
            }
        }
        if keys_unique(s) {
            assert(keys_unique(s.drop_last()));
            assert forall|i: int| 0 <= i < s.len() implies pairs_to_map(s).contains_key(
                #[trigger] s[i].0,
            ) && pairs_to_map(s)[s[i].0] == s[i].1 by {
                if i < s.len() - 1 {
                    assert(s.drop_last()[i] == s[i]);
                    assert(s[i].0 != s.last().0);
                }
            }
        }
    }
}

/// An upsert keeps well-formedness and denotes a map insert.
pub proof fn lemma_upsert(s: Seq<(Seq<char>, ValModel)>, k: Seq<char>, v: ValModel)
    requires
        wf_obj(s),
        nul_free(k),
        wf_val(v),
    ensures
        wf_obj(upsert(s, k, v)),
        pairs_to_map(upsert(s, k, v)) == pairs_to_map(s).insert(k, v),
{
    let t = upsert(s, k, v);
    if has_key(s, k) {
        let i = key_index(s, k);
        assert(s[i].0 == k);
        lemma_pairs_to_map_update(s, k, v);
        assert(keys_unique(t)) by {
            assert(forall|j: int| 0 <= j < t.len() && j != i ==> t[j] == s[j]);
        }
        assert(forall|j: int| 0 <= j < t.len() ==> nul_free((#[trigger] t[j]).0));
        assert(forall|j: int| 0 <= j < t.len() ==> wf_val((#[trigger] t[j]).1));
    } else {
        lemma_pairs_to_map_push(s, k, v);
        assert(keys_unique(t)) by {
            assert(forall|j: int| 0 <= j < s.len() ==> s[j].0 != k);
        }
        assert(forall|j: int| 0 <= j < t.len() ==> nul_free((#[trigger] t[j]).0));
        assert(forall|j: int| 0 <= j < t.len() ==> wf_val((#[trigger] t[j]).1));
    }
}

/// A configuration value: string, integer, boolean, object or array.
#[derive(Debug, PartialEq)]
pub enum Value {
    VStr(String),
    VInt(i64),
    VBool(bool),
    VObj(Data),
    VArr(Array),
}

/// One key-value entry of an object.
#[derive(Debug, PartialEq)]
pub struct Entry {
    pub key: String,
    pub value: Value,
}

/// A typed nested key-value configuration value with unique keys.
#[derive(Debug, PartialEq)]
pub struct Data {
    entries: Vec<Entry>,
}

/// An ordered sequence of [`Data`] values.
#[derive(Debug, PartialEq)]
pub struct Array {
    items: Vec<Data>,
}

impl Value {
    /// The model of this value.
    pub closed spec fn model(self) -> ValModel
        decreases self,
    {
        match self {
            Value::VStr(s) => ValModel::S(s@),
            Value::VInt(n) => ValModel::I(n as int),
            Value::VBool(b) => ValModel::B(b),
            Value::VObj(d) => ValModel::O(d.obj_model()),
            Value::VArr(a) => ValModel::A(a.model()),
        }
    }
}

/// The models of a sequence of entries, in order.
pub closed spec fn entries_model(s: Seq<Entry>) -> Seq<(Seq<char>, ValModel)>
    decreases s,
{
    if s.len() == 0 {
        Seq::empty()
    } else {
        entries_model(s.drop_last()).push((s.last().key@, s.last().value.model()))
    }
}

/// What `entries_model` holds at each position.
pub proof fn lemma_entries_model(s: Seq<Entry>)
    ensures
        entries_model(s).len() == s.len(),
        forall|i: int|
            0 <= i < s.len() ==> entries_model(s)[i] == (s[i].key@, s[i].value.model()),
    decreases s.len(),
{
    if s.len() > 0 {
        lemma_entries_model(s.drop_last());
    }
}

/// The models of a sequence of objects, in order.
pub closed spec fn items_model(s: Seq<Data>) -> Seq<Seq<(Seq<char>, ValModel)>>
    decreases s,
{
    if s.len() == 0 {
        Seq::empty()
    } else {
        items_model(s.drop_last()).push(s.last().obj_model())
    }
}

/// What `items_model` holds at each position.
pub proof fn lemma_items_model(s: Seq<Data>)
    ensures
        items_model(s).len() == s.len(),
        forall|i: int| 0 <= i < s.len() ==> items_model(s)[i] == s[i].obj_model(),
    decreases s.len(),
{
    if s.len() > 0 {
        lemma_items_model(s.drop_last());
    }
}

impl Data {
    /// The ordered entry sequence this object holds.
    pub closed spec fn obj_model(self) -> Seq<(Seq<char>, ValModel)>
        decreases self,
    {
        entries_model(self.entries@)
    }

    /// The map this object denotes.
    pub open spec fn map_model(self) -> Map<Seq<char>, ValModel> {
        pairs_to_map(self.obj_model())
    }

    /// Keys NUL-free and unique, all nested values well formed.
    pub open spec fn wf(self) -> bool {
        wf_obj(self.obj_model())
    }

    /// A fresh, empty configuration object.
    pub fn new() -> (r: Data)
        ensures
            r.obj_model() == Seq::<(Seq<char>, ValModel)>::empty(),
            r.map_model() == Map::<Seq<char>, ValModel>::empty(),
            r.wf(),
    {
        let d = Data { entries: Vec::new() };
        proof {
            assert(d.obj_model() =~= Seq::<(Seq<char>, ValModel)>::empty());
        }
        d
    }

    /// Position of the entry keyed like `key`, if any.
    fn find_key(&self, key: &str) -> (r: Option<usize>)
        ensures
            match r {
                Some(i) => i < self.obj_model().len() && self.obj_model()[i as int].0 == key@,
                None => !has_key(self.obj_model(), key@),
            },
    {
        proof {
            lemma_entries_model(self.entries@);
        }
        let n = self.entries.len();
        let mut i: usize = 0;
        while i < n
            invariant
                n == self.entries@.len(),
                i <= n,
                entries_model(self.entries@).len() == n,
                forall|j: int|
                    0 <= j < n ==> entries_model(self.entries@)[j] == (
                    self.entries@[j].key@,
                    self.entries@[j].value.model(),
                ),
                forall|j: int| 0 <= j < i ==> self.obj_model()[j].0 != key@,
            decreases n - i,
        {
            if str_eq(self.entries[i].key.as_str(), key) {
                return Some(i);
            }
            i += 1;
        }
        proof {
            assert(!has_key(self.obj_model(), key@));
        }
        None
    }

    /// Bind `key` to `value`, replacing any earlier binding wholesale.
    fn set_value(&mut self, key: &str, value: Value)
        requires
            old(self).wf(),
            nul_free(key@),
            wf_val(value.model()),
        ensures
            final(self).obj_model() == upsert(old(self).obj_model(), key@, value.model()),
            final(self).map_model() == old(self).map_model().insert(key@, value.model()),
            final(self).wf(),
    {
        proof {
            lemma_upsert(old(self).obj_model(), key@, value.model());
        }
        let found = self.find_key(key);
        match found {
            Some(i) => {
                proof {
                    lemma_entries_model(self.entries@);
                    assert(key_index(old(self).obj_model(), key@) == i) by {
                        let j = key_index(old(self).obj_model(), key@);
                        assert(old(self).obj_model()[j].0 == key@);
                        assert(keys_unique(old(self).obj_model()));
                    }
                }
                let owned_key = String::from_str(key);
                self.entries[i] = Entry { key: owned_key, value };
                proof {
                    lemma_entries_model(self.entries@);
                    assert(self.obj_model() =~= upsert(
                        old(self).obj_model(),
                        key@,
                        value.model(),
                    ));
                }
            },
            None => {
                let owned_key = String::from_str(key);
                self.entries.push(Entry { key: owned_key, value });
                proof {
                    lemma_entries_model(self.entries@);
                    lemma_entries_model(old(self).entries@);
                    assert(self.entries@.drop_last() =~= old(self).entries@);
                    assert(self.obj_model() =~= upsert(
                        old(self).obj_model(),
                        key@,
                        value.model(),
                    ));
                }
            },
        }
    }

    /// Bind `key` to the string `val`.  Rejected with `EncodingError`, before
    /// anything changes, when the key or the value holds an embedded NUL.
    pub fn set_string(&mut self, key: &str, val: &str) -> (r: Result<(), Error>)
        requires
            old(self).wf(),
        ensures
            final(self).wf(),
            nul_free(key@) && nul_free(val@) ==> {
                &&& r is Ok
                &&& final(self).obj_model() == upsert(
                    old(self).obj_model(),
                    key@,
                    ValModel::S(val@),
                )
                &&& final(self).map_model() == old(self).map_model().insert(
                    key@,
                    ValModel::S(val@),
                )
            },
            !(nul_free(key@) && nul_free(val@)) ==> r == Err::<(), Error>(Error::EncodingError)
                && final(self).obj_model() == old(self).obj_model(),
    {
        if !check_nul_free(key) || !check_nul_free(val) {
            return Err(Error::EncodingError);
        }
        let owned = String::from_str(val);
        self.set_value(key, Value::VStr(owned));
        Ok(())
    }

    /// Bind `key` to the integer `val`.  Rejected with `EncodingError` when
    /// the key holds an embedded NUL.
    pub fn set_int(&mut self, key: &str, val: i64) -> (r: Result<(), Error>)
        requires
            old(self).wf(),
        ensures
            final(self).wf(),
            nul_free(key@) ==> {
                &&& r is Ok
                &&& final(self).obj_model() == upsert(
                    old(self).obj_model(),
                    key@,
                    ValModel::I(val as int),
                )
                &&& final(self).map_model() == old(self).map_model().insert(
                    key@,
                    ValModel::I(val as int),
                )
            },
            !nul_free(key@) ==> r == Err::<(), Error>(Error::EncodingError) && final(self).obj_model() == old(self).obj_model(),
    {
        if !check_nul_free(key) {
            return Err(Error::EncodingError);
        }
        self.set_value(key, Value::VInt(val));
        Ok(())
    }

    /// Bind `key` to the boolean `val`.  Rejected with `EncodingError` when
    /// the key holds an embedded NUL.
    pub fn set_bool(&mut self, key: &str, val: bool) -> (r: Result<(), Error>)
        requires
            old(self).wf(),
        ensures
            final(self).wf(),
            nul_free(key@) ==> {
                &&& r is Ok
                &&& final(self).obj_model() == upsert(
                    old(self).obj_model(),
                    key@,
                    ValModel::B(val),
                )
                &&& final(self).map_model() == old(self).map_model().insert(
                    key@,
                    ValModel::B(val),
                )
            },
            !nul_free(key@) ==> r == Err::<(), Error>(Error::EncodingError) && final(self).obj_model() == old(self).obj_model(),
    {
        if !check_nul_free(key) {
            return Err(Error::EncodingError);
        }
        self.set_value(key, Value::VBool(val));
        Ok(())
    }

    /// Bind `key` to a nested object, taking ownership of it: the caller's
    /// value is consumed whether or not the key is accepted.
    pub fn set_object(&mut self, key: &str, data: Data) -> (r: Result<(), Error>)
        requires
            old(self).wf(),
            data.wf(),
        ensures
            final(self).wf(),
            nul_free(key@) ==> {
                &&& r is Ok
                &&& final(self).obj_model() == upsert(
                    old(self).obj_model(),
                    key@,
                    ValModel::O(data.obj_model()),
                )
                &&& final(self).map_model() == old(self).map_model().insert(
                    key@,
                    ValModel::O(data.obj_model()),
                )
            },
            !nul_free(key@) ==> r == Err::<(), Error>(Error::EncodingError) && final(self).obj_model() == old(self).obj_model(),
    {
        if !check_nul_free(key) {
            return Err(Error::EncodingError);
        }
        self.set_value(key, Value::VObj(data));
        Ok(())
    }

    /// Bind `key` to an array, taking ownership of it: the caller's value is
    /// consumed whether or not the key is accepted.
    pub fn set_array(&mut self, key: &str, data: Array) -> (r: Result<(), Error>)
        requires
            old(self).wf(),
            data.wf(),
        ensures
            final(self).wf(),
            nul_free(key@) ==> {
                &&& r is Ok
                &&& final(self).obj_model() == upsert(
                    old(self).obj_model(),
                    key@,
                    ValModel::A(data.model()),
                )
                &&& final(self).map_model() == old(self).map_model().insert(
                    key@,
                    ValModel::A(data.model()),
                )
            },
            !nul_free(key@) ==> r == Err::<(), Error>(Error::EncodingError) && final(self).obj_model() == old(self).obj_model(),
    {
        if !check_nul_free(key) {
            return Err(Error::EncodingError);
        }
        proof {
            assert(wf_val(ValModel::A(data.model())));
        }
        self.set_value(key, Value::VArr(data));
        Ok(())
    }

    /// Borrow the array bound to `key`; fails with a `LookupError` naming
    /// the key when no array is bound to it.
    pub fn get_array(&self, key: &str) -> (r: Result<&Array, Error>)
        requires
            self.wf(),
        ensures
            match r {
                Ok(a) => self.map_model().contains_key(key@) && self.map_model()[key@]
                    == ValModel::A(a.model()) && a.wf(),
                Err(e) => {
                    &&& e matches Error::LookupError { kind, name } && kind == LookupKind::Array
                        && name@ == key@
                    &&& !(self.map_model().contains_key(key@) && self.map_model()[key@] matches
                        ValModel::A(_))
                },
            },
    {
        proof {
            lemma_entries_model(self.entries@);
            lemma_pairs_to_map_props(self.obj_model());
        }
        let found = self.find_key(key);
        match found {
            Some(i) => {
                match &self.entries[i].value {
                    Value::VArr(a) => {
                        proof {
                            assert(self.obj_model()[i as int].0 == key@);
                            assert(self.map_model().contains_key(key@));
                            assert(self.obj_model()[i as int].1 == ValModel::A(a.model()));
                            assert(self.map_model()[key@] == ValModel::A(a.model()));
                            assert(wf_val(self.obj_model()[i as int].1));
                            assert(wf_val(ValModel::A(a.model())));
                            assert(a.wf());
                        }
                        Ok(a)
                    },
                    _ => {
                        proof {
                            assert(self.map_model()[key@] == self.obj_model()[i as int].1);
                        }
                        Err(Error::LookupError {
                            kind: LookupKind::Array,
                            name: String::from_str(key),
                        })
                    },
                }
            },
            None => Err(Error::LookupError {
                kind: LookupKind::Array,
                name: String::from_str(key),
            }),
        }
    }

    /// Take the array bound to `key` out of this object, consuming the
    /// object; fails with a `LookupError` naming the key when no array is
    /// bound to it.
    pub fn into_array(self, key: &str) -> (r: Result<Array, Error>)
        requires
            self.wf(),
        ensures
            match r {
                Ok(a) => self.map_model().contains_key(key@) && self.map_model()[key@]
                    == ValModel::A(a.model()) && a.wf(),
                Err(e) => {
                    &&& e matches Error::LookupError { kind, name } && kind == LookupKind::Array
                        && name@ == key@
                    &&& !(self.map_model().contains_key(key@) && self.map_model()[key@] matches
                        ValModel::A(_))
                },
            },
    {
        proof {
            lemma_entries_model(self.entries@);
            lemma_pairs_to_map_props(self.obj_model());
        }
        let found = self.find_key(key);
        match found {
            Some(i) => {
                let mut entries = self.entries;
                let entry = entries.remove(i);
                proof {
                    assert(self.obj_model()[i as int].1 == entry.value.model());
                    assert(self.map_model()[key@] == self.obj_model()[i as int].1);
                    assert(wf_obj(self.obj_model()));
                    assert(wf_val(self.obj_model()[i as int].1));
                }
                match entry.value {
                    Value::VArr(a) => Ok(a),
                    _ => Err(Error::LookupError {
                        kind: LookupKind::Array,
                        name: String::from_str(key),
                    }),
                }
            },
            None => Err(Error::LookupError {
                kind: LookupKind::Array,
                name: String::from_str(key),
            }),
        }
    }
}

impl Array {
    /// The ordered sequence of object models this array holds.
    pub closed spec fn model(self) -> Seq<Seq<(Seq<char>, ValModel)>>
        decreases self,
    {
        items_model(self.items@)
    }

    /// Every item well formed.
    pub open spec fn wf(self) -> bool {
        wf_items(self.model())
    }

    /// A fresh, empty array.
    pub fn new() -> (r: Array)
        ensures
            r.model() == Seq::<Seq<(Seq<char>, ValModel)>>::empty(),
            r.wf(),
    {
        let a = Array { items: Vec::new() };
        proof {
            assert(a.model() =~= Seq::<Seq<(Seq<char>, ValModel)>>::empty());
        }
        a
    }

    /// How many objects the array holds.
    pub fn len(&self) -> (r: usize)
        ensures
            r == self.model().len(),
    {
        proof {
            lemma_items_model(self.items@);
        }
        self.items.len()
    }

    /// Read the object at position `i`; order is insertion order.
    pub fn item_at(&self, i: usize) -> (r: &Data)
        requires
            i < self.model().len(),
        ensures
            r.obj_model() == self.model()[i as int],
    {
        proof {
            lemma_items_model(self.items@);
        }
        &self.items[i]
    }

    /// Append an object, taking ownership of it.  All earlier items keep
    /// their positions: insertion order is preserved.
    pub fn push_back(&mut self, data: Data)
        requires
            old(self).wf(),
            data.wf(),
        ensures
            final(self).model() == old(self).model().push(data.obj_model()),
            final(self).wf(),
    {
        self.items.push(data);
        proof {
            assert(self.items@.drop_last() =~= old(self).items@);
            assert(self.items@.last() == data);
            assert(self.model() =~= old(self).model().push(data.obj_model()));
            lemma_items_model(self.items@);
            lemma_items_model(old(self).items@);
        }
    }
}

/// Relies on `String::push`: it appends exactly the one character to the
/// end of the string.
#[verifier::external_body]
fn push_char(s: &mut String, c: char)
    ensures
        final(s)@ == old(s)@.push(c),
{
    s.push(c)
}

/// Collect characters into a string.
fn string_from_chars(v: &Vec<char>) -> (r: String)
    ensures
        r@ == v@,
{
    let mut s = String::new();
    let n = v.len();
    let mut i: usize = 0;
    while i < n
        invariant
            n == v@.len(),
            i <= n,
            s@ == v@.take(i as int),
        decreases n - i,
    {
        push_char(&mut s, v[i]);
        proof {
            assert(s@ =~= v@.take(i as int + 1));
        }
        i += 1;
    }
    proof {
        assert(v@.take(n as int) =~= v@);
    }
    s
}

/// The digit character for a single decimal digit.
fn digit_char_exec(d: u64) -> (r: char)
    requires
        d < 10,
    ensures
        r == crate::json::digit_char(d as int),
{
    if d == 0 {
        '0'
    } else if d == 1 {
        '1'
    } else if d == 2 {
        '2'
    } else if d == 3 {
        '3'
    } else if d == 4 {
        '4'
    } else if d == 5 {
        '5'
    } else if d == 6 {
        '6'
    } else if d == 7 {
        '7'
    } else if d == 8 {
        '8'
    } else {
        '9'
    }
}

/// Emit the decimal digits of `m`.
fn emit_nat(m: u64, out: &mut Vec<char>)
    ensures
        final(out)@ == old(out)@ + crate::json::ser_nat(m as nat),
    decreases m,
{
    if m < 10 {
        out.push(digit_char_exec(m));
        proof {
            assert(out@ =~= old(out)@ + crate::json::ser_nat(m as nat));
        }
    } else {
        emit_nat(m / 10, out);
        out.push(digit_char_exec(m % 10));
        proof {
            assert(out@ =~= old(out)@ + crate::json::ser_nat(m as nat));
        }
    }
}

/// Emit the decimal text of `n`.
fn emit_int(n: i64, out: &mut Vec<char>)
    ensures
        final(out)@ == old(out)@ + crate::json::ser_int(n as int),
{
    if n < 0 {
        out.push('-');
        let mag: u64 = if n == i64::MIN {
            9223372036854775808u64
        } else {
            (-n) as u64
        };
        proof {
            assert(mag as int == -(n as int));
        }
        emit_nat(mag, out);
        proof {
            assert(out@ =~= old(out)@ + crate::json::ser_int(n as int));
        }
    } else {
        emit_nat(n as u64, out);
    }
}

/// Emit a quoted, escaped string.
fn emit_string(t: &str, out: &mut Vec<char>)
    ensures
        final(out)@ == old(out)@ + crate::json::ser_string(t@),
{
    out.push('"');
    proof {
        assert(crate::json::esc(t@.take(0)) == Seq::<char>::empty()) by {
            assert(t@.take(0).len() == 0);
        }
        assert(out@ =~= old(out)@ + seq!['"'] + crate::json::esc(t@.take(0)));
    }
    let n = t.unicode_len();
    let mut k: usize = 0;
    while k < n
        invariant
            n == t@.len(),
            k <= n,
            out@ == old(out)@ + seq!['"'] + crate::json::esc(t@.take(k as int)),
        decreases n - k,
    {
        let c = t.get_char(k);
        proof {
            crate::json::lemma_esc_push(t@.take(k as int), t@[k as int]);
            assert(t@.take(k as int + 1) =~= t@.take(k as int).push(t@[k as int]));
        }
        if c == '"' || c == '\\' {
            out.push('\\');
            out.push(c);
        } else {
            out.push(c);
        }
        proof {
            assert(out@ =~= old(out)@ + seq!['"'] + crate::json::esc(t@.take(k as int + 1)));
        }
        k += 1;
    }
    out.push('"');
    proof {
        assert(t@.take(n as int) =~= t@);
        assert(out@ =~= old(out)@ + crate::json::ser_string(t@));
    }
}

/// Emit one value.
fn emit_val(v: &Value, out: &mut Vec<char>)
    ensures
        final(out)@ == old(out)@ + crate::json::ser_val(v.model()),
    decreases v,
{
    match v {
        Value::VStr(t) => {
            emit_string(t.as_str(), out);
        },
        Value::VInt(n) => {
            emit_int(*n, out);
        },
        Value::VBool(b) => {
            if *b {
                out.push('t');
                out.push('r');
                out.push('u');
                out.push('e');
            } else {
                out.push('f');
                out.push('a');
                out.push('l');
                out.push('s');
                out.push('e');
            }
            proof {
                assert(out@ =~= old(out)@ + crate::json::ser_val(v.model()));
            }
        },
        Value::VObj(d) => {
            emit_obj(d, out);
        },
        Value::VArr(a) => {
            emit_arr(a, out);
        },
    }
}

/// Emit one object.
fn emit_obj(d: &Data, out: &mut Vec<char>)
    ensures
        final(out)@ == old(out)@ + crate::json::ser_obj(d.obj_model()),
    decreases d,
{
    proof {
        lemma_entries_model(d.entries@);
    }
    out.push('{');
    proof {
        assert(out@ =~= old(out)@ + seq!['{'] + crate::json::ser_entries(d.obj_model().take(0)));
    }
    let n = d.entries.len();
    let mut k: usize = 0;
    while k < n
        invariant
            n == d.entries@.len(),
            k <= n,
            d.obj_model().len() == n,
            forall|j: int|
                0 <= j < n ==> d.obj_model()[j] == (d.entries@[j].key@, d.entries@[j].value.model()),
            out@ == old(out)@ + seq!['{'] + crate::json::ser_entries(d.obj_model().take(k as int)),
        decreases n - k,
    {
        if k > 0 {
            out.push(',');
        }
        let e = &d.entries[k];
        emit_string(e.key.as_str(), out);
        out.push(':');
        emit_val(&e.value, out);
        proof {
            crate::json::lemma_ser_entries_snoc(d.obj_model().take(k as int), d.obj_model()[k as int]);
            assert(d.obj_model().take(k as int + 1) =~= d.obj_model().take(k as int).push(
                d.obj_model()[k as int],
            ));
            assert(crate::json::ser_entry(d.obj_model()[k as int])
                == crate::json::ser_string(e.key@) + seq![':'] + crate::json::ser_val(
                e.value.model(),
            ));
            assert(out@ =~= old(out)@ + seq!['{'] + crate::json::ser_entries(
                d.obj_model().take(k as int + 1),
            ));
        }
        k += 1;
    }
    out.push('}');
    proof {
        assert(d.obj_model().take(n as int) =~= d.obj_model());
        assert(out@ =~= old(out)@ + crate::json::ser_obj(d.obj_model()));
    }
}

/// Emit one array.
fn emit_arr(a: &Array, out: &mut Vec<char>)
    ensures
        final(out)@ == old(out)@ + crate::json::ser_arr(a.model()),
    decreases a,
{
    proof {
        lemma_items_model(a.items@);
    }
    out.push('[');
    proof {
        assert(out@ =~= old(out)@ + seq!['['] + crate::json::ser_items(a.model().take(0)));
    }
    let n = a.items.len();
    let mut k: usize = 0;
    while k < n
        invariant
            n == a.items@.len(),
            k <= n,
            a.model().len() == n,
            forall|j: int| 0 <= j < n ==> a.model()[j] == a.items@[j].obj_model(),
            out@ == old(out)@ + seq!['['] + crate::json::ser_items(a.model().take(k as int)),
        decreases n - k,
    {
        if k > 0 {
            out.push(',');
        }
        emit_obj(&a.items[k], out);
        proof {
            crate::json::lemma_ser_items_snoc(a.model().take(k as int), a.model()[k as int]);
            assert(a.model().take(k as int + 1) =~= a.model().take(k as int).push(
                a.model()[k as int],
            ));
            assert(out@ =~= old(out)@ + seq!['['] + crate::json::ser_items(
                a.model().take(k as int + 1),
            ));
        }
        k += 1;
    }
    out.push(']');
    proof {
        assert(a.model().take(n as int) =~= a.model());
        assert(out@ =~= old(out)@ + crate::json::ser_arr(a.model()));
    }
}

impl Data {
    /// Serialize this object to its canonical configuration text.
    pub fn to_json(&self) -> (r: String)
        ensures
            r@ == crate::json::ser_obj(self.obj_model()),
    {
        let mut out: Vec<char> = Vec::new();
        emit_obj(self, &mut out);
        string_from_chars(&out)
    }
}

/// Pushing an object onto an array preserves the position of everything
/// already there: however many values are pushed, they read back in
/// insertion order.
pub proof fn lemma_push_preserves_order(
    m: Seq<Seq<(Seq<char>, ValModel)>>,
    x: Seq<(Seq<char>, ValModel)>,
)
    ensures
        m.push(x).len() == m.len() + 1,
        forall|i: int| 0 <= i < m.len() ==> m.push(x)[i] == m[i],
        m.push(x)[m.len() as int] == x,
{
}

/// Compare two strings by their character sequences.
pub fn str_eq(a: &str, b: &str) -> (r: bool)
    ensures
        r == (a@ == b@),
{
    let alen = a.unicode_len();
    let blen = b.unicode_len();
    if alen != blen {
        return false;
    }
    let mut i: usize = 0;
    while i < alen
        invariant
            alen == a@.len(),
            blen == b@.len(),
            alen == blen,
            i <= alen,
            forall|j: int| 0 <= j < i ==> a@[j] == b@[j],
        decreases alen - i,
    {
        if a.get_char(i) != b.get_char(i) {
            return false;
        }
        i += 1;
    }
    proof {
        assert(a@ =~= b@);
    }
    true
}

/// Decimal digit?
fn is_digit_exec(c: char) -> (r: bool)
    ensures
        r == crate::json::is_digit(c),
{
    let u = c as u32;
    48 <= u && u <= 57
}

/// The value of a digit character.
fn digit_value(c: char) -> (r: u64)
    requires
        crate::json::is_digit(c),
    ensures
        r as int == crate::json::digit_val(c),
{
    (c as u32 - 48) as u64
}

/// Parse a string body after its opening quote.
fn p_str_body(s: &Vec<char>, i: usize) -> (r: Option<(Vec<char>, usize)>)
    requires
        i <= s@.len(),
    ensures
        match r {
            Some(p) => crate::json::sp_str_body(s@, i as int) == Some((p.0@, p.1 as int)) && i
                < p.1 <= s@.len() && nul_free(p.0@),
            None => crate::json::sp_str_body(s@, i as int) is None,
        },
    decreases s@.len() - i, 0int,
{
    if i >= s.len() {
        return None;
    }
    let c = s[i];
    if c == '"' {
        let t: Vec<char> = Vec::new();
        proof {
            assert(t@ =~= Seq::<char>::empty());
        }
        Some((t, i + 1))
    } else if c == '\\' {
        if i + 1 < s.len() && (s[i + 1] == '"' || s[i + 1] == '\\') {
            match p_str_body(s, i + 2) {
                Some((t, j)) => {
                    let mut t2 = t;
                    let e = s[i + 1];
                    t2.insert(0, e);
                    proof {
                        assert(t2@ =~= seq![s@[i + 1]] + t@);
                        assert(forall|x: int| 0 <= x < t2@.len() ==> t2@[x] != '\0');
                    }
                    Some((t2, j))
                },
                None => None,
            }
        } else {
            None
        }
    } else if c == '\0' {
        None
    } else {
        match p_str_body(s, i + 1) {
            Some((t, j)) => {
                let mut t2 = t;
                t2.insert(0, c);
                proof {
                    assert(t2@ =~= seq![s@[i as int]] + t@);
                    assert(forall|x: int| 0 <= x < t2@.len() ==> t2@[x] != '\0');
                }
                Some((t2, j))
            },
            None => None,
        }
    }
}

/// Parse a quoted string.
fn p_string(s: &Vec<char>, i: usize) -> (r: Option<(Vec<char>, usize)>)
    requires
        i <= s@.len(),
    ensures
        match r {
            Some(p) => crate::json::sp_string(s@, i as int) == Some((p.0@, p.1 as int)) && i < p.1
                <= s@.len() && nul_free(p.0@),
            None => crate::json::sp_string(s@, i as int) is None,
        },
{
    if i < s.len() && s[i] == '"' {
        p_str_body(s, i + 1)
    } else {
        None
    }
}

/// Find the end of the digit run starting at `i`.
fn p_run_end(s: &Vec<char>, i: usize) -> (r: usize)
    requires
        i <= s@.len(),
    ensures
        r as int == crate::json::digit_run_end(s@, i as int),
        i <= r <= s@.len(),
    decreases s@.len() - i,
{
    if i < s.len() && is_digit_exec(s[i]) {
        p_run_end(s, i + 1)
    } else {
        i
    }
}

/// Compute the value of the digit run `s[i..j)`.
fn p_digits_val(s: &Vec<char>, i: usize, j: usize) -> (r: u64)
    requires
        i <= j <= s@.len(),
        forall|k: int| i <= k < j ==> crate::json::is_digit(#[trigger] s@[k]),
        crate::json::sp_digits_val(s@, i as int, j as int) <= u64::MAX as int,
    ensures
        r as int == crate::json::sp_digits_val(s@, i as int, j as int),
    decreases j - i,
{
    if j <= i {
        0
    } else {
        proof {
            crate::json::lemma_sp_digits_val_nonneg(s@, i as int, j as int);
        }
        let sub = p_digits_val(s, i, j - 1);
        let d = digit_value(s[j - 1]);
        sub * 10 + d
    }
}

/// Parse an integer.
fn p_int(s: &Vec<char>, i: usize) -> (r: Option<(i64, usize)>)
    requires
        i <= s@.len(),
    ensures
        match r {
            Some(p) => crate::json::sp_int(s@, i as int) == Some((p.0 as int, p.1 as int)) && i
                < p.1 <= s@.len(),
            None => crate::json::sp_int(s@, i as int) is None,
        },
{
    if i >= s.len() {
        return None;
    }
    let neg = s[i] == '-';
    let st = if neg {
        i + 1
    } else {
        i
    };
    if st > s.len() {
        return None;
    }
    let e = p_run_end(s, st);
    proof {
        crate::json::lemma_digit_run_end_digits(s@, st as int);
    }
    let l = e - st;
    if l < 1 || l > 19 {
        return None;
    }
    proof {
        crate::json::lemma_sp_digits_val_bound(s@, st as int, e as int);
        crate::json::lemma_pow10_mono(l as nat, 19);
        assert(crate::json::pow10(19) == 10000000000000000000) by {
            reveal_with_fuel(crate::json::pow10, 21);
        }
    }
    let mag = p_digits_val(s, st, e);
    if neg {
        if mag > 9223372036854775808u64 {
            return None;
        }
        let n: i64 = if mag == 9223372036854775808u64 {
            i64::MIN
        } else {
            -(mag as i64)
        };
        proof {
            assert(n as int == -(mag as int));
        }
        Some((n, e))
    } else {
        if mag > 9223372036854775807u64 {
            return None;
        }
        Some((mag as i64, e))
    }
}

/// Parse one value.
fn p_val(s: &Vec<char>, i: usize) -> (r: Option<(Value, usize)>)
    requires
        i <= s@.len(),
    ensures
        match r {
            Some(p) => crate::json::sp_val(s@, i as int) == Some((p.0.model(), p.1 as int)) && i
                < p.1 <= s@.len() && wf_val(p.0.model()),
            None => crate::json::sp_val(s@, i as int) is None,
        },
    decreases s@.len() - i, 3int,
{
    if i >= s.len() {
        return None;
    }
    let c = s[i];
    if c == '"' {
        match p_string(s, i) {
            Some((t, j)) => {
                let owned = string_from_chars(&t);
                Some((Value::VStr(owned), j))
            },
            None => None,
        }
    } else if c == '{' {
        match p_obj(s, i) {
            Some((d, j)) => Some((Value::VObj(d), j)),
            None => None,
        }
    } else if c == '[' {
        match p_arr(s, i) {
            Some((a, j)) => Some((Value::VArr(a), j)),
            None => None,
        }
    } else if c == 't' {
        if s.len() - i >= 4 && s[i + 1] == 'r' && s[i + 2] == 'u' && s[i + 3] == 'e' {
            Some((Value::VBool(true), i + 4))
        } else {
            None
        }
    } else if c == 'f' {
        if s.len() - i >= 5 && s[i + 1] == 'a' && s[i + 2] == 'l' && s[i + 3] == 's' && s[i + 4]
            == 'e' {
            Some((Value::VBool(false), i + 5))
        } else {
            None
        }
    } else if c == '-' || is_digit_exec(c) {
        match p_int(s, i) {
            Some((n, j)) => Some((Value::VInt(n), j)),
            None => None,
        }
    } else {
        None
    }
}

/// Parse one object.
fn p_obj(s: &Vec<char>, i: usize) -> (r: Option<(Data, usize)>)
    requires
        i <= s@.len(),
    ensures
        match r {
            Some(p) => crate::json::sp_obj(s@, i as int) == Some((p.0.obj_model(), p.1 as int))
                && i < p.1 <= s@.len() && p.0.wf(),
            None => crate::json::sp_obj(s@, i as int) is None,
        },
    decreases s@.len() - i, 1int,
{
    if !(i < s.len() && s[i] == '{') {
        return None;
    }
    if i + 1 < s.len() && s[i + 1] == '}' {
        Some((Data::new(), i + 2))
    } else {
        p_entries(s, i + 1, Data::new())
    }
}

/// Parse entries after `{` or `,`, onto what was already collected.
fn p_entries(s: &Vec<char>, i: usize, done: Data) -> (r: Option<(Data, usize)>)
    requires
        i <= s@.len(),
        done.wf(),
    ensures
        match r {
            Some(p) => crate::json::sp_entries(s@, i as int, done.obj_model()) == Some(
                (p.0.obj_model(), p.1 as int),
            ) && i < p.1 <= s@.len() && p.0.wf(),
            None => crate::json::sp_entries(s@, i as int, done.obj_model()) is None,
        },
    decreases s@.len() - i, 0int,
{
    match p_string(s, i) {
        None => None,
        Some((kchars, j)) => {
            let key = string_from_chars(&kchars);
            let dup = done.find_key(key.as_str());
            match dup {
                Some(_) => {
                    proof {
                        assert(has_key(done.obj_model(), kchars@));
                    }
                    None
                },
                None => {
                    if !(j < s.len()) {
                        return None;
                    }
                    if s[j] != ':' {
                        return None;
                    }
                    match p_val(s, j + 1) {
                        None => None,
                        Some((v, j2)) => {
                            let mut d2 = done;
                            proof {
                                lemma_entries_model(d2.entries@);
                            }
                            d2.entries.push(Entry { key, value: v });
                            proof {
                                lemma_entries_model(d2.entries@);
                                assert(d2.entries@.drop_last() =~= done.entries@);
                                lemma_entries_model(done.entries@);
                                assert(d2.obj_model() =~= done.obj_model().push(
                                    (kchars@, v.model()),
                                ));
                                assert(d2.wf()) by {
                                    let m = d2.obj_model();
                                    let dm = done.obj_model();
                                    assert(keys_unique(m)) by {
                                        assert(forall|a: int|
                                            0 <= a < dm.len() ==> m[a] == dm[a]);
                                        assert(forall|a: int|
                                            0 <= a < dm.len() ==> dm[a].0 != kchars@);
                                    }
                                    assert(forall|a: int|
                                        0 <= a < m.len() ==> nul_free((#[trigger] m[a]).0));
                                    assert(forall|a: int|
                                        0 <= a < m.len() ==> wf_val((#[trigger] m[a]).1));
                                }
                            }
                            if j2 < s.len() && s[j2] == ',' {
                                p_entries(s, j2 + 1, d2)
                            } else if j2 < s.len() && s[j2] == '}' {
                                Some((d2, j2 + 1))
                            } else {
                                None
                            }
                        },
                    }
                },
            }
        },
    }
}

/// Parse one array.
fn p_arr(s: &Vec<char>, i: usize) -> (r: Option<(Array, usize)>)
    requires
        i <= s@.len(),
    ensures
        match r {
            Some(p) => crate::json::sp_arr(s@, i as int) == Some((p.0.model(), p.1 as int)) && i
                < p.1 <= s@.len() && p.0.wf(),
            None => crate::json::sp_arr(s@, i as int) is None,
        },
    decreases s@.len() - i, 2int,
{
    if !(i < s.len() && s[i] == '[') {
        return None;
    }
    if i + 1 < s.len() && s[i + 1] == ']' {
        Some((Array::new(), i + 2))
    } else {
        p_items(s, i + 1, Array::new())
    }
}

/// Parse objects after `[` or `,`, onto what was already collected.
fn p_items(s: &Vec<char>, i: usize, done: Array) -> (r: Option<(Array, usize)>)
    requires
        i <= s@.len(),
        done.wf(),
    ensures
        match r {
            Some(p) => crate::json::sp_items(s@, i as int, done.model()) == Some(
                (p.0.model(), p.1 as int),
            ) && i < p.1 <= s@.len() && p.0.wf(),
            None => crate::json::sp_items(s@, i as int, done.model()) is None,
        },
    decreases s@.len() - i, 2int,
{
    match p_obj(s, i) {
        None => None,
        Some((o, j)) => {
            let mut d2 = done;
            d2.push_back(o);
            if j < s.len() && s[j] == ',' {
                p_items(s, j + 1, d2)
            } else if j < s.len() && s[j] == ']' {
                Some((d2, j + 1))
            } else {
                None
            }
        },
    }
}

impl Data {
    /// Parse a configuration object from its text.  Exactly the texts the
    /// grammar generates are accepted; anything else is a `ParseError`.
    pub fn from_json(text: &str) -> (r: Result<Data, Error>)
        ensures
            match r {
                Ok(d) => crate::json::spec_parse_document(text@) == Some(d.obj_model())
                    && d.wf(),
                Err(e) => e == Error::ParseError && crate::json::spec_parse_document(text@)
                    is None,
            },
    {
        let n = text.unicode_len();
        let mut chars: Vec<char> = Vec::new();
        let mut k: usize = 0;
        while k < n
            invariant
                n == text@.len(),
                k <= n,
                chars@ == text@.take(k as int),
            decreases n - k,
        {
            chars.push(text.get_char(k));
            proof {
                assert(chars@ =~= text@.take(k as int + 1));
            }
            k += 1;
        }
        proof {
            assert(chars@ =~= text@);
        }
        match p_obj(&chars, 0) {
            Some((d, j)) => {
                if j == chars.len() {
                    Ok(d)
                } else {
                    Err(Error::ParseError)
                }
            },
            None => Err(Error::ParseError),
        }
    }
}

/// Does the string avoid embedded NUL?
pub fn check_nul_free(s: &str) -> (r: bool)
    ensures
        r == nul_free(s@),
{
    let len = s.unicode_len();
    let mut i: usize = 0;
    while i < len
        invariant
            len == s@.len(),
            i <= len,
            forall|j: int| 0 <= j < i ==> s@[j] != '\0',
        decreases len - i,
    {
        if s.get_char(i) == '\0' {
            return false;
        }
        i += 1;
    }
    true
}

} // verus!
