//! Order-preserving JSON values.
//!
//! The proxy parses, inspects, rewrites and re-serializes LSP message bodies.
//! `Json` holds such a body as plain data: object members keep their order
//! and numbers keep their decimal literal. `JsonModel` is the mathematical
//! picture of a `Json` value that the contracts speak of. Turning wire text
//! into `Json` and back is a conversion done at the I/O edge, outside the
//! library.

use vstd::prelude::*;

use crate::util::{assoc_find, chars_eq, lemma_assoc_find_skip};

verus! {

broadcast use vstd::std_specs::vec::axiom_vec_index_decreases;

/// Mathematical model of a JSON value.
pub enum JsonModel {
    Null,
    Bool(bool),
    /// The number's literal, character for character.
    Num(Seq<char>),
    Str(Seq<char>),
    Arr(Seq<JsonModel>),
    /// Members in order of appearance.
    Obj(Seq<(Seq<char>, JsonModel)>),
}

/// A JSON value as the proxy holds it.
pub enum Json {
    Null,
    Bool(bool),
    /// The number's literal, character for character.
    Num(Vec<char>),
    Str(Vec<char>),
    Arr(Vec<Json>),
    /// Members in order of appearance.
    Obj(Vec<(Vec<char>, Json)>),
}

pub open spec fn json_model(j: Json) -> JsonModel
    decreases j,
{
    match j {
        Json::Null => JsonModel::Null,
        Json::Bool(b) => JsonModel::Bool(b),
        Json::Num(n) => JsonModel::Num(n@),
        Json::Str(s) => JsonModel::Str(s@),
        Json::Arr(items) => JsonModel::Arr(
            Seq::new(
                items@.len(),
                |i: int|
                    if 0 <= i < items@.len() {
                        json_model(items[i])
                    } else {
                        JsonModel::Null
                    },
            ),
        ),
        Json::Obj(fields) => JsonModel::Obj(
            Seq::new(
                fields@.len(),
                |i: int|
                    if 0 <= i < fields@.len() {
                        (fields[i].0@, json_model(fields[i].1))
                    } else {
                        (Seq::empty(), JsonModel::Null)
                    },
            ),
        ),
    }
}

impl View for Json {
    type V = JsonModel;

    open spec fn view(&self) -> JsonModel {
        json_model(*self)
    }
}

impl JsonModel {
    /// The value of member `key`, when the value is an object holding one.
    pub open spec fn get(self, key: Seq<char>) -> Option<JsonModel> {
        match self {
            JsonModel::Obj(fields) => assoc_find(fields, key),
            _ => None,
        }
    }

    /// The member string under `key`, when there is one.
    pub open spec fn get_str(self, key: Seq<char>) -> Option<Seq<char>> {
        match self.get(key) {
            Some(JsonModel::Str(s)) => Some(s),
            _ => None,
        }
    }

    /// Whether the value is an object with a member named `key`.
    pub open spec fn has_key(self, key: Seq<char>) -> bool {
        self.get(key) is Some
    }
}

/// `entries` with the first binding of `key` replaced by `value`, or with
/// `(key, value)` appended when no binding exists.
pub open spec fn assoc_store(
    entries: Seq<(Seq<char>, JsonModel)>,
    key: Seq<char>,
    value: JsonModel,
) -> Seq<(Seq<char>, JsonModel)>
    decreases entries.len(),
{
    if entries.len() == 0 {
        seq![(key, value)]
    } else if entries[0].0 == key {
        seq![(key, value)] + entries.drop_first()
    } else {
        seq![entries[0]] + assoc_store(entries.drop_first(), key, value)
    }
}

impl JsonModel {
    /// The value after storing `value` under `key`; non-objects are unchanged.
    pub open spec fn put(self, key: Seq<char>, value: JsonModel) -> JsonModel {
        match self {
            JsonModel::Obj(fields) => JsonModel::Obj(assoc_store(fields, key, value)),
            _ => self,
        }
    }
}

pub proof fn lemma_assoc_store_skip(
    entries: Seq<(Seq<char>, JsonModel)>,
    key: Seq<char>,
    value: JsonModel,
    i: int,
)
    requires
        0 <= i <= entries.len(),
        forall|k: int| 0 <= k < i ==> entries[k].0 != key,
    ensures
        assoc_store(entries, key, value) == entries.take(i) + assoc_store(
            entries.skip(i),
            key,
            value,
        ),
    decreases i,
{
    if i == 0 {
        assert(entries.skip(0) =~= entries);
        assert(entries.take(0) + assoc_store(entries, key, value) =~= assoc_store(
            entries,
            key,
            value,
        ));
    } else {
        assert(entries.len() > 0 && entries[0].0 != key);
        lemma_assoc_store_skip(entries.drop_first(), key, value, i - 1);
        assert(entries.drop_first().skip(i - 1) =~= entries.skip(i));
        assert(entries.drop_first().take(i - 1) =~= entries.take(i).drop_first());
        assert(seq![entries[0]] + (entries.take(i).drop_first() + assoc_store(
            entries.skip(i),
            key,
            value,
        )) =~= entries.take(i) + assoc_store(entries.skip(i), key, value));
    }
}

impl Json {
    /// A borrow of the member `key`, when this is an object holding one.
    pub fn get<'a>(&'a self, key: &[char]) -> (r: Option<&'a Json>)
        ensures
            match r {
                Some(v) => self@.get(key@) == Some(v@),
                None => self@.get(key@) is None,
            },
    {
        match self {
            Json::Obj(fields) => {
                let ghost m = self@->Obj_0;
                let mut i: usize = 0;
                while i < fields.len()
                    invariant
                        i <= fields.len(),
                        m == json_model(*self)->Obj_0,
                        self matches Json::Obj(f) && f == fields,
                        m.len() == fields.len(),
                        forall|k: int|
                            0 <= k < fields.len() ==> m[k] == (fields[k].0@, json_model(
                                fields[k].1,
                            )),
                        forall|k: int| 0 <= k < i ==> m[k].0 != key@,
                    decreases fields.len() - i,
                {
                    if chars_eq(fields[i].0.as_slice(), key) {
                        proof {
                            lemma_assoc_find_skip(m, key@, i as int);
                            assert(m.skip(i as int)[0] == m[i as int]);
                        }
                        return Some(&fields[i].1);
                    }
                    i += 1;
                }
                proof {
                    lemma_assoc_find_skip(m, key@, i as int);
                }
                None
            },
            _ => None,
        }
    }

    /// Stores `value` under `key` in an object; other values are unchanged.
    #[verifier::loop_isolation(false)]
    pub fn put(self, key: Vec<char>, value: Json) -> (r: Json)
        ensures
            r@ == self@.put(key@, json_model(value)),
    {
        let ghost orig = json_model(self);
        match self {
            Json::Obj(mut fields) => {
                let ghost m = orig->Obj_0;
                proof {
                    assert(orig == JsonModel::Obj(m));
                }
                let mut i: usize = 0;
                while i < fields.len()
                    invariant
                        i <= fields.len(),
                        orig == JsonModel::Obj(m),
                        m.len() == fields.len(),
                        forall|k: int|
                            0 <= k < fields.len() ==> m[k] == (fields[k].0@, json_model(
                                fields[k].1,
                            )),
                        forall|k: int| 0 <= k < i ==> m[k].0 != key@,
                    decreases fields.len() - i,
                {
                    if chars_eq(fields[i].0.as_slice(), key.as_slice()) {
                        proof {
                            lemma_assoc_store_skip(m, key@, json_model(value), i as int);
                            assert(m.skip(i as int)[0].0 == key@);
                        }
                        let ghost stored = (key@, json_model(value));
                        fields[i] = (key, value);
                        let r = Json::Obj(fields);
                        proof {
                            let m2 = json_model(r)->Obj_0;
                            assert(json_model(r) == JsonModel::Obj(m2));
                            assert(m2 =~= m.update(i as int, stored));
                            assert(assoc_store(m.skip(i as int), stored.0, stored.1) =~= seq![
                                stored,
                            ] + m.skip(i as int).drop_first());
                            assert(m2 =~= m.take(i as int) + assoc_store(
                                m.skip(i as int),
                                stored.0,
                                stored.1,
                            ));
                            assert(m2 == assoc_store(m, stored.0, stored.1));
                            assert(orig == JsonModel::Obj(m));
                            assert(json_model(r) == orig.put(stored.0, stored.1));
                        }
                        return r;
                    }
                    i += 1;
                }
                proof {
                    lemma_assoc_store_skip(m, key@, json_model(value), i as int);
                    assert(m.skip(i as int).len() == 0);
                }
                let ghost stored = (key@, json_model(value));
                fields.push((key, value));
                let r = Json::Obj(fields);
                proof {
                    let m2 = json_model(r)->Obj_0;
                    assert(m2 =~= m.push(stored));
                    assert(m2 =~= m.take(m.len() as int) + assoc_store(
                        m.skip(m.len() as int),
                        key@,
                        stored.1,
                    ));
                }
                r
            },
            other => other,
        }
    }
}

} // verus!
