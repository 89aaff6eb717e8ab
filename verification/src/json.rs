//! A JSON document model: the values that the account and session files hold.

use vstd::prelude::*;
use crate::text::{own, str_equal};

verus! {

/// The mathematical value of a JSON document.
///
/// An object is a sequence of keys with a sequence of values beside it, of
/// the same length; a key that occurs more than once reads as its first
/// occurrence.
pub enum JsonV {
    Null,
    Bool(bool),
    Int(int),
    Num(Seq<char>),
    Str(Seq<char>),
    Arr(Seq<JsonV>),
    Obj(Seq<Seq<char>>, Seq<JsonV>),
}

/// A JSON document.
///
/// `Int` holds every number that fits in an `i64`; `Num` holds any other
/// number by its decimal text.
#[derive(Debug)]
pub enum Json {
    Null,
    Bool(bool),
    Int(i64),
    Num(String),
    Str(String),
    Arr(Vec<Json>),
    Obj(Vec<(String, Json)>),
}

pub open spec fn arr_view(v: Seq<Json>) -> Seq<JsonV> {
    Seq::new(v.len(), |i: int| v[i]@)
}

pub open spec fn keys_view(v: Seq<(String, Json)>) -> Seq<Seq<char>> {
    Seq::new(v.len(), |i: int| v[i].0@)
}

pub open spec fn vals_view(v: Seq<(String, Json)>) -> Seq<JsonV> {
    Seq::new(v.len(), |i: int| v[i].1@)
}

impl View for Json {
    type V = JsonV;

    open spec fn view(&self) -> JsonV
        decreases self,
    {
        match self {
            Json::Null => JsonV::Null,
            Json::Bool(b) => JsonV::Bool(*b),
            Json::Int(i) => JsonV::Int(*i as int),
            Json::Num(s) => JsonV::Num(s@),
            Json::Str(s) => JsonV::Str(s@),
            Json::Arr(v) => JsonV::Arr(
                Seq::new(
                    v.len() as nat,
                    |i: int|
                        if 0 <= i < v.len() {
                            v[i].view()
                        } else {
                            JsonV::Null
                        },
                ),
            ),
            Json::Obj(v) => JsonV::Obj(
                Seq::new(v.len() as nat, |i: int| v[i].0@),
                Seq::new(
                    v.len() as nat,
                    |i: int|
                        if 0 <= i < v.len() {
                            v[i].1.view()
                        } else {
                            JsonV::Null
                        },
                ),
            ),
        }
    }
}

/// An optional document by its value.
pub open spec fn opt_doc(o: Option<Json>) -> Option<JsonV> {
    match o {
        Some(j) => Some(j@),
        None => None,
    }
}

/// An optional document reference by its value.
pub open spec fn opt_doc_ref(o: Option<&Json>) -> Option<JsonV> {
    match o {
        Some(j) => Some(j@),
        None => None,
    }
}

/// The position of the first occurrence of key `k`.
pub open spec fn key_pos(keys: Seq<Seq<char>>, k: Seq<char>) -> Option<int>
    decreases keys.len(),
{
    if keys.len() == 0 {
        None
    } else {
        match key_pos(keys.drop_last(), k) {
            Some(i) => Some(i),
            None => if keys.last() == k {
                Some(keys.len() - 1)
            } else {
                None
            },
        }
    }
}

/// The value beside the first occurrence of key `k`.
pub open spec fn entries_get(keys: Seq<Seq<char>>, vals: Seq<JsonV>, k: Seq<char>) -> Option<JsonV> {
    match key_pos(keys, k) {
        Some(i) => Some(vals[i]),
        None => None,
    }
}

pub proof fn lemma_key_pos(keys: Seq<Seq<char>>, k: Seq<char>)
    ensures
        key_pos(keys, k) matches Some(i) ==> {
            &&& 0 <= i < keys.len()
            &&& keys[i] == k
            &&& forall|j: int| 0 <= j < i ==> keys[j] != k
        },
        key_pos(keys, k) is None ==> forall|j: int| 0 <= j < keys.len() ==> keys[j] != k,
    decreases keys.len(),
{
    if keys.len() > 0 {
        lemma_key_pos(keys.drop_last(), k);
        assert(forall|j: int| 0 <= j < keys.len() - 1 ==> keys.drop_last()[j] == keys[j]);
    }
}

/// `key_pos` is determined by the characterization of `lemma_key_pos`.
pub proof fn lemma_key_pos_unique(keys: Seq<Seq<char>>, k: Seq<char>, i: int)
    requires
        0 <= i < keys.len(),
        keys[i] == k,
        forall|j: int| 0 <= j < i ==> keys[j] != k,
    ensures
        key_pos(keys, k) == Some(i),
{
    lemma_key_pos(keys, k);
}

pub proof fn lemma_key_pos_absent(keys: Seq<Seq<char>>, k: Seq<char>)
    requires
        forall|j: int| 0 <= j < keys.len() ==> keys[j] != k,
    ensures
        key_pos(keys, k) is None,
{
    lemma_key_pos(keys, k);
}

/// Pushing a key keeps the position of every key already present.
pub proof fn lemma_key_pos_push(keys: Seq<Seq<char>>, k: Seq<char>, k2: Seq<char>)
    ensures
        key_pos(keys.push(k), k2) == match key_pos(keys, k2) {
            Some(i) => Some(i),
            None => if k == k2 {
                Some(keys.len() as int)
            } else {
                None
            },
        },
{
    assert(keys.push(k).drop_last() =~= keys);
}

impl JsonV {
    pub open spec fn get(self, k: Seq<char>) -> Option<JsonV> {
        match self {
            JsonV::Obj(keys, vals) => entries_get(keys, vals, k),
            _ => None,
        }
    }

    /// The value after setting key `k` of an object: the value beside the first
    /// occurrence of `k` is replaced, or `k` goes last. Other values stay as
    /// they are.
    pub open spec fn set(self, k: Seq<char>, v: JsonV) -> JsonV {
        match self {
            JsonV::Obj(keys, vals) => match key_pos(keys, k) {
                Some(i) => JsonV::Obj(keys, vals.update(i, v)),
                None => JsonV::Obj(keys.push(k), vals.push(v)),
            },
            _ => self,
        }
    }

    /// The keys of an object (empty for any other value).
    pub open spec fn keys(self) -> Seq<Seq<char>> {
        match self {
            JsonV::Obj(keys, _) => keys,
            _ => Seq::empty(),
        }
    }

    pub open spec fn as_str(self) -> Option<Seq<char>> {
        match self {
            JsonV::Str(s) => Some(s),
            _ => None,
        }
    }

    pub open spec fn as_bool(self) -> Option<bool> {
        match self {
            JsonV::Bool(b) => Some(b),
            _ => None,
        }
    }

    pub open spec fn as_i64(self) -> Option<int> {
        match self {
            JsonV::Int(i) => Some(i),
            _ => None,
        }
    }

    pub open spec fn as_array(self) -> Option<Seq<JsonV>> {
        match self {
            JsonV::Arr(a) => Some(a),
            _ => None,
        }
    }

    pub open spec fn is_object(self) -> bool {
        self is Obj
    }

    pub open spec fn is_array(self) -> bool {
        self is Arr
    }

    /// The string at key `k`, where there is one.
    pub open spec fn get_str(self, k: Seq<char>) -> Option<Seq<char>> {
        match self.get(k) {
            Some(v) => v.as_str(),
            None => None,
        }
    }

    /// An object whose keys and values sequences have the same length.
    pub open spec fn wf_obj(self) -> bool {
        self matches JsonV::Obj(keys, vals) && keys.len() == vals.len()
    }
}

/// Reading a key back after setting it gives the value set; other keys keep
/// their values.
pub proof fn lemma_set_get(j: JsonV, k: Seq<char>, v: JsonV, k2: Seq<char>)
    requires
        j.wf_obj(),
    ensures
        j.set(k, v).wf_obj(),
        j.set(k, v).get(k2) == if k2 == k {
            Some(v)
        } else {
            j.get(k2)
        },
{
    let keys = j->Obj_0;
    lemma_key_pos(keys, k);
    lemma_key_pos(keys, k2);
    lemma_key_pos_push(keys, k, k2);
}

/// A document as `serde_json` holds one: every object has as many values
/// as keys, at every depth.
pub open spec fn valid(v: JsonV) -> bool
    decreases v,
{
    match v {
        JsonV::Arr(a) => forall|i: int| 0 <= i < a.len() ==> valid(#[trigger] a[i]),
        JsonV::Obj(ks, vs) => ks.len() == vs.len() && forall|i: int| 0 <= i < vs.len() ==> valid(#[trigger] vs[i]),
        _ => true,
    }
}

/// Every document is valid.
pub proof fn lemma_view_valid(j: Json)
    ensures
        valid(j@),
    decreases j,
{
    match j {
        Json::Arr(v) => {
            assert forall|i: int| 0 <= i < j@->Arr_0.len() implies valid(#[trigger] j@->Arr_0[i]) by {
                vstd::std_specs::vec::axiom_vec_index_decreases(v, i);
                lemma_view_valid(v[i]);
            }
        },
        Json::Obj(v) => {
            assert forall|i: int| 0 <= i < j@->Obj_1.len() implies valid(#[trigger] j@->Obj_1[i]) by {
                vstd::std_specs::vec::axiom_vec_index_decreases(v, i);
                lemma_view_valid(v[i].1);
            }
        },
        _ => {},
    }
}

/// A value read from a valid document is valid.
pub proof fn lemma_get_valid(j: JsonV, k: Seq<char>)
    requires
        valid(j),
    ensures
        j.get(k) matches Some(x) ==> valid(x),
        j is Obj ==> j.wf_obj(),
{
    if j is Obj {
        lemma_key_pos(j->Obj_0, k);
    }
}

/// Setting a valid value in a valid document keeps it valid.
pub proof fn lemma_set_valid(j: JsonV, k: Seq<char>, x: JsonV)
    requires
        valid(j),
        valid(x),
    ensures
        valid(j.set(k, x)),
{
    if j is Obj {
        lemma_key_pos(j->Obj_0, k);
        let s = j.set(k, x);
        assert forall|i: int| 0 <= i < s->Obj_1.len() implies valid(#[trigger] s->Obj_1[i]) by {
            if i < j->Obj_1.len() {
                if key_pos(j->Obj_0, k) != Some(i) {
                    assert(s->Obj_1[i] == j->Obj_1[i]);
                }
            }
        }
    }
}

pub proof fn lemma_arr_view(v: Vec<Json>)
    ensures
        Json::Arr(v)@ == JsonV::Arr(arr_view(v@)),
{
    assert(Json::Arr(v)@->Arr_0 =~= arr_view(v@));
}

pub proof fn lemma_obj_view(v: Vec<(String, Json)>)
    ensures
        Json::Obj(v)@ == JsonV::Obj(keys_view(v@), vals_view(v@)),
        Json::Obj(v)@.wf_obj(),
{
    assert(Json::Obj(v)@->Obj_0 =~= keys_view(v@));
    assert(Json::Obj(v)@->Obj_1 =~= vals_view(v@));
}

/// The position of key `key` among `entries`, where it occurs.
pub fn find_key(entries: &Vec<(String, Json)>, key: &str) -> (r: Option<usize>)
    ensures
        match r {
            Some(i) => key_pos(keys_view(entries@), key@) == Some(i as int),
            None => key_pos(keys_view(entries@), key@) is None,
        },
{
    let ghost ks = keys_view(entries@);
    let mut i: usize = 0;
    while i < entries.len()
        invariant
            i <= entries.len(),
            ks == keys_view(entries@),
            forall|j: int| 0 <= j < i ==> ks[j] != key@,
        decreases entries.len() - i,
    {
        if str_equal(entries[i].0.as_str(), key) {
            proof {
                lemma_key_pos_unique(ks, key@, i as int);
            }
            return Some(i);
        }
        i += 1;
    }
    proof {
        lemma_key_pos_absent(ks, key@);
    }
    None
}

impl Json {
    /// `Value::get` with a string key: the value at `key` of an object.
    pub fn get(&self, key: &str) -> (r: Option<&Json>)
        ensures
            match r {
                Some(x) => self@.get(key@) == Some(x@),
                None => self@.get(key@) is None,
            },
    {
        match self {
            Json::Obj(entries) => {
                proof {
                    lemma_obj_view(*entries);
                }
                let f = find_key(entries, key);
                proof {
                    lemma_key_pos(keys_view(entries@), key@);
                }
                match f {
                    Some(i) => Some(&entries[i].1),
                    None => None,
                }
            },
            _ => None,
        }
    }

    pub fn as_str(&self) -> (r: Option<&String>)
        ensures
            match r {
                Some(s) => self@.as_str() == Some(s@),
                None => self@.as_str() is None,
            },
    {
        match self {
            Json::Str(s) => Some(s),
            _ => None,
        }
    }

    pub fn as_bool(&self) -> (r: Option<bool>)
        ensures
            r == self@.as_bool(),
    {
        match self {
            Json::Bool(b) => Some(*b),
            _ => None,
        }
    }

    pub fn as_i64(&self) -> (r: Option<i64>)
        ensures
            match r {
                Some(i) => self@.as_i64() == Some(i as int),
                None => self@.as_i64() is None,
            },
    {
        match self {
            Json::Int(i) => Some(*i),
            _ => None,
        }
    }

    pub fn as_array(&self) -> (r: Option<&Vec<Json>>)
        ensures
            match r {
                Some(v) => self@.as_array() == Some(arr_view(v@)),
                None => self@.as_array() is None,
            },
    {
        match self {
            Json::Arr(v) => {
                proof {
                    lemma_arr_view(*v);
                }
                Some(v)
            },
            _ => None,
        }
    }

    pub fn is_object(&self) -> (r: bool)
        ensures
            r == self@.is_object(),
    {
        match self {
            Json::Obj(_) => true,
            _ => false,
        }
    }

    pub fn is_array(&self) -> (r: bool)
        ensures
            r == self@.is_array(),
    {
        match self {
            Json::Arr(_) => true,
            _ => false,
        }
    }

    /// The string at key `key`, where there is one.
    pub fn get_str(&self, key: &str) -> (r: Option<&String>)
        ensures
            match r {
                Some(s) => self@.get_str(key@) == Some(s@),
                None => self@.get_str(key@) is None,
            },
    {
        match self.get(key) {
            Some(v) => v.as_str(),
            None => None,
        }
    }

    /// A copy of the whole document.
    pub fn deep_clone(&self) -> (r: Json)
        ensures
            r@ == self@,
        decreases self,
    {
        match self {
            Json::Null => Json::Null,
            Json::Bool(b) => Json::Bool(*b),
            Json::Int(i) => Json::Int(*i),
            Json::Num(s) => Json::Num(s.clone()),
            Json::Str(s) => Json::Str(s.clone()),
            Json::Arr(v) => {
                let mut out: Vec<Json> = Vec::new();
                let mut i: usize = 0;
                assert(decreases_to!(*self => *v));
                while i < v.len()
                    invariant
                        decreases_to!(*self => *v),
                        i <= v.len(),
                        out.len() == i,
                        forall|j: int| 0 <= j < i ==> out@[j]@ == v@[j]@,
                    decreases v.len() - i,
                {
                    proof {
                        vstd::std_specs::vec::axiom_vec_index_decreases(*v, i as int);
                    }
                    out.push(v[i].deep_clone());
                    i += 1;
                }
                let r = Json::Arr(out);
                proof {
                    lemma_arr_view(out);
                    lemma_arr_view(*v);
                    assert(arr_view(out@) =~= arr_view(v@));
                }
                r
            },
            Json::Obj(v) => {
                let mut out: Vec<(String, Json)> = Vec::new();
                let mut i: usize = 0;
                assert(decreases_to!(*self => *v));
                while i < v.len()
                    invariant
                        decreases_to!(*self => *v),
                        i <= v.len(),
                        out.len() == i,
                        forall|j: int| 0 <= j < i ==> out@[j].0@ == v@[j].0@ && out@[j].1@ == v@[j].1@,
                    decreases v.len() - i,
                {
                    proof {
                        vstd::std_specs::vec::axiom_vec_index_decreases(*v, i as int);
                    }
                    out.push((v[i].0.clone(), v[i].1.deep_clone()));
                    i += 1;
                }
                let r = Json::Obj(out);
                proof {
                    lemma_obj_view(out);
                    lemma_obj_view(*v);
                    assert(keys_view(out@) =~= keys_view(v@));
                    assert(vals_view(out@) =~= vals_view(v@));
                }
                r
            },
        }
    }
}


/// The entries after setting `key` to `value`, as `serde_json::Map::insert` does.
pub fn entries_insert(entries: Vec<(String, Json)>, key: &str, value: Json) -> (r: Vec<(String, Json)>)
    ensures
        Json::Obj(r)@ == Json::Obj(entries)@.set(key@, value@),
{
    let mut entries = entries;
    let ghost old_entries = entries@;
    proof {
        lemma_obj_view(entries);
    }
    match find_key(&entries, key) {
        Some(i) => {
            proof {
                lemma_key_pos(keys_view(entries@), key@);
            }
            let k = own(key);
            entries.set(i, (k, value));
            proof {
                lemma_obj_view(entries);
                assert(keys_view(entries@) =~= keys_view(old_entries));
                assert(vals_view(entries@) =~= vals_view(old_entries).update(i as int, value@));
            }
        },
        None => {
            entries.push((own(key), value));
            proof {
                lemma_obj_view(entries);
                assert(keys_view(entries@) =~= keys_view(old_entries).push(key@));
                assert(vals_view(entries@) =~= vals_view(old_entries).push(value@));
            }
        },
    }
    entries
}

impl Json {
    /// A string value.
    pub fn string(s: &str) -> (r: Json)
        ensures
            r@ == JsonV::Str(s@),
    {
        Json::Str(own(s))
    }

    /// An object without entries.
    pub fn empty_object() -> (r: Json)
        ensures
            r@ == JsonV::Obj(Seq::empty(), Seq::empty()),
    {
        let v: Vec<(String, Json)> = Vec::new();
        proof {
            lemma_obj_view(v);
        }
        let r = Json::Obj(v);
        assert(r@->Obj_0 =~= Seq::<Seq<char>>::empty());
        assert(r@->Obj_1 =~= Seq::<JsonV>::empty());
        r
    }

    /// `Map::insert` on an object: sets `key` to `value`.
    pub fn insert(&mut self, key: &str, value: Json)
        requires
            old(self)@.is_object(),
        ensures
            final(self)@ == old(self)@.set(key@, value@),
    {
        let mut cur = Json::Null;
        core::mem::swap(&mut cur, self);
        match cur {
            Json::Obj(entries) => {
                *self = Json::Obj(entries_insert(entries, key, value));
            },
            other => {
                *self = other;
            },
        }
    }

    /// `value[key] = new` as `serde_json` writes it: `Null` reads as an empty
    /// object; any other value than an object or `Null` makes it panic, so the
    /// caller keeps to those.
    pub fn index_set(&mut self, key: &str, value: Json)
        requires
            old(self)@.is_object() || old(self)@ is Null,
        ensures
            final(self)@ == (if old(self)@ is Null {
                JsonV::Obj(Seq::empty(), Seq::empty())
            } else {
                old(self)@
            }).set(key@, value@),
    {
        if !self.is_object() {
            *self = Json::empty_object();
        }
        self.insert(key, value);
    }
}

/// Structural equality of two documents (`==` on `serde_json::Value` where
/// both sides list the keys of each object in the same order).
pub fn json_eq(a: &Json, b: &Json) -> (r: bool)
    ensures
        r == (a@ == b@),
    decreases a,
{
    match (a, b) {
        (Json::Null, Json::Null) => true,
        (Json::Bool(x), Json::Bool(y)) => *x == *y,
        (Json::Int(x), Json::Int(y)) => *x == *y,
        (Json::Num(x), Json::Num(y)) => str_equal(x.as_str(), y.as_str()),
        (Json::Str(x), Json::Str(y)) => str_equal(x.as_str(), y.as_str()),
        (Json::Arr(x), Json::Arr(y)) => {
            proof {
                lemma_arr_view(*x);
                lemma_arr_view(*y);
            }
            if x.len() != y.len() {
                assert(a@->Arr_0.len() != b@->Arr_0.len());
                return false;
            }
            let mut i: usize = 0;
            assert(decreases_to!(*a => *x));
            while i < x.len()
                invariant
                    decreases_to!(*a => *x),
                    i <= x.len() == y.len(),
                    a@ == JsonV::Arr(arr_view(x@)),
                    b@ == JsonV::Arr(arr_view(y@)),
                    forall|j: int| 0 <= j < i ==> x@[j]@ == y@[j]@,
                decreases x.len() - i,
            {
                proof {
                    vstd::std_specs::vec::axiom_vec_index_decreases(*x, i as int);
                }
                if !json_eq(&x[i], &y[i]) {
                    assert(arr_view(x@)[i as int] != arr_view(y@)[i as int]);
                    return false;
                }
                i += 1;
            }
            assert(arr_view(x@) =~= arr_view(y@));
            true
        },
        (Json::Obj(x), Json::Obj(y)) => {
            proof {
                lemma_obj_view(*x);
                lemma_obj_view(*y);
            }
            if x.len() != y.len() {
                assert(keys_view(x@).len() != keys_view(y@).len());
                return false;
            }
            let mut i: usize = 0;
            assert(decreases_to!(*a => *x));
            while i < x.len()
                invariant
                    decreases_to!(*a => *x),
                    i <= x.len() == y.len(),
                    a@ == JsonV::Obj(keys_view(x@), vals_view(x@)),
                    b@ == JsonV::Obj(keys_view(y@), vals_view(y@)),
                    forall|j: int| 0 <= j < i ==> x@[j].0@ == y@[j].0@ && x@[j].1@ == y@[j].1@,
                decreases x.len() - i,
            {
                proof {
                    vstd::std_specs::vec::axiom_vec_index_decreases(*x, i as int);
                }
                if !str_equal(x[i].0.as_str(), y[i].0.as_str()) {
                    assert(keys_view(x@)[i as int] != keys_view(y@)[i as int]);
                    return false;
                }
                if !json_eq(&x[i].1, &y[i].1) {
                    assert(vals_view(x@)[i as int] != vals_view(y@)[i as int]);
                    return false;
                }
                i += 1;
            }
            assert(keys_view(x@) =~= keys_view(y@));
            assert(vals_view(x@) =~= vals_view(y@));
            true
        },
        _ => false,
    }
}

} // verus!
