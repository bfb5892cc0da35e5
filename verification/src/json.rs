//! A JSON value of the library's own, with its mathematical view.
use vstd::prelude::*;
use crate::text::{str_eq, i64_to_string, u64_to_string, dec_int, owned};

verus! {

/// A JSON value. Numbers are kept as their JSON text.
pub enum Json {
    Null,
    Bool(bool),
    Number(String),
    Str(String),
    Array(Vec<Json>),
    Object(Vec<(String, Json)>),
}

/// The mathematical model of a [`Json`] value.
pub enum JsonV {
    Null,
    Bool(bool),
    Number(Seq<char>),
    Str(Seq<char>),
    Array(Seq<JsonV>),
    Object(Seq<(Seq<char>, JsonV)>),
}

/// The model of a value: strings by their characters, arrays and objects as
/// sequences.
pub open spec fn json_view(j: &Json) -> JsonV
    decreases j,
{
    match j {
        Json::Null => JsonV::Null,
        Json::Bool(b) => JsonV::Bool(*b),
        Json::Number(t) => JsonV::Number(t@),
        Json::Str(s) => JsonV::Str(s@),
        Json::Array(items) => JsonV::Array(
            Seq::new(
                items.len() as nat,
                |i: int|
                    if 0 <= i < items.len() {
                        json_view(&items[i])
                    } else {
                        JsonV::Null
                    },
            ),
        ),
        Json::Object(fields) => JsonV::Object(
            Seq::new(
                fields.len() as nat,
                |i: int|
                    if 0 <= i < fields.len() {
                        (fields[i].0@, json_view(&fields[i].1))
                    } else {
                        (Seq::empty(), JsonV::Null)
                    },
            ),
        ),
    }
}

impl View for Json {
    type V = JsonV;

    open spec fn view(&self) -> JsonV {
        json_view(self)
    }
}

/// The models of a sequence of values.
pub open spec fn jviews(v: Seq<Json>) -> Seq<JsonV> {
    v.map_values(|j: Json| j@)
}

pub proof fn lemma_jviews_push(v: Seq<Json>, j: Json)
    ensures
        jviews(v.push(j)) == jviews(v).push(j@),
{
    assert(jviews(v.push(j)) =~= jviews(v).push(j@));
}

/// The models of the fields of an object.
pub open spec fn fviews(v: Seq<(String, Json)>) -> Seq<(Seq<char>, JsonV)> {
    v.map_values(|f: (String, Json)| (f.0@, f.1@))
}

/// The value of the first field named `key`.
pub open spec fn lookup(fields: Seq<(Seq<char>, JsonV)>, key: Seq<char>) -> Option<JsonV>
    decreases fields.len(),
{
    if fields.len() == 0 {
        None
    } else if fields[0].0 == key {
        Some(fields[0].1)
    } else {
        lookup(fields.drop_first(), key)
    }
}

/// `fields` with the first field named `key` set to `v`, or `v` added at the
/// end where no field has that name.
pub open spec fn set_field(fields: Seq<(Seq<char>, JsonV)>, key: Seq<char>, v: JsonV) -> Seq<(Seq<char>, JsonV)>
    decreases fields.len(),
{
    if fields.len() == 0 {
        seq![(key, v)]
    } else if fields[0].0 == key {
        fields.update(0, (key, v))
    } else {
        seq![fields[0]] + set_field(fields.drop_first(), key, v)
    }
}

impl JsonV {
    /// `value.get(key)`: the field of an object, `None` for other values.
    pub open spec fn field(self, key: Seq<char>) -> Option<JsonV> {
        match self {
            JsonV::Object(fs) => lookup(fs, key),
            _ => None,
        }
    }

    /// `value.get(i)`: the element of an array.
    pub open spec fn item(self, i: int) -> Option<JsonV> {
        match self {
            JsonV::Array(a) => if 0 <= i < a.len() {
                Some(a[i])
            } else {
                None
            },
            _ => None,
        }
    }

    pub open spec fn as_str(self) -> Option<Seq<char>> {
        match self {
            JsonV::Str(s) => Some(s),
            _ => None,
        }
    }

    pub open spec fn as_array(self) -> Option<Seq<JsonV>> {
        match self {
            JsonV::Array(a) => Some(a),
            _ => None,
        }
    }

    pub open spec fn as_bool(self) -> Option<bool> {
        match self {
            JsonV::Bool(b) => Some(b),
            _ => None,
        }
    }

    pub open spec fn is_object(self) -> bool {
        self is Object
    }

    /// `value.get(key).and_then(as_str)`.
    pub open spec fn field_str(self, key: Seq<char>) -> Option<Seq<char>> {
        match self.field(key) {
            Some(v) => v.as_str(),
            None => None,
        }
    }

    /// `value.get(key).and_then(as_array)`.
    pub open spec fn field_array(self, key: Seq<char>) -> Option<Seq<JsonV>> {
        match self.field(key) {
            Some(v) => v.as_array(),
            None => None,
        }
    }

    /// `value.get(key).and_then(as_str).unwrap_or(default)`.
    pub open spec fn str_or(self, key: Seq<char>, default: Seq<char>) -> Seq<char> {
        match self.field_str(key) {
            Some(s) => s,
            None => default,
        }
    }

    /// `value.get(key).cloned().unwrap_or(default)`.
    pub open spec fn field_or(self, key: Seq<char>, default: JsonV) -> JsonV {
        match self.field(key) {
            Some(v) => v,
            None => default,
        }
    }

    /// `value[key] = v` on an object.
    pub open spec fn with_field(self, key: Seq<char>, v: JsonV) -> JsonV {
        match self {
            JsonV::Object(fs) => JsonV::Object(set_field(fs, key, v)),
            _ => self,
        }
    }
}

/// The model of an optional borrowed value.
pub open spec fn opt_view(o: Option<&Json>) -> Option<JsonV> {
    match o {
        Some(j) => Some(j@),
        None => None,
    }
}

/// The model of an optional string slice.
pub open spec fn opt_str_view(o: Option<&str>) -> Option<Seq<char>> {
    match o {
        Some(s) => Some(s@),
        None => None,
    }
}

/// The model of an optional string.
pub open spec fn opt_string_view(o: Option<String>) -> Option<Seq<char>> {
    match o {
        Some(s) => Some(s@),
        None => None,
    }
}

/// The text that `n.to_string()` gives for a JSON number made from an integer.
pub open spec fn int_json(n: int) -> JsonV {
    JsonV::Number(dec_int(n))
}

/// The object whose fields are `fields`, in order.
pub open spec fn obj(fields: Seq<(Seq<char>, JsonV)>) -> JsonV {
    JsonV::Object(fields)
}

impl Json {
    pub proof fn lemma_array_view(&self)
        requires
            self is Array,
        ensures
            self@ == JsonV::Array(jviews(self->Array_0@)),
    {
        let items = self->Array_0;
        assert(self@->Array_0 =~= jviews(items@));
    }

    pub proof fn lemma_object_view(&self)
        requires
            self is Object,
        ensures
            self@ == JsonV::Object(fviews(self->Object_0@)),
    {
        let fields = self->Object_0;
        assert(self@->Object_0 =~= fviews(fields@));
    }

    /// An array holding `items`.
    pub fn array(items: Vec<Json>) -> (r: Json)
        ensures
            r@ == JsonV::Array(jviews(items@)),
    {
        let r = Json::Array(items);
        proof {
            r.lemma_array_view();
        }
        r
    }

    /// An object holding `fields`, in this order.
    pub fn object(fields: Vec<(String, Json)>) -> (r: Json)
        ensures
            r@ == JsonV::Object(fviews(fields@)),
    {
        let r = Json::Object(fields);
        proof {
            r.lemma_object_view();
        }
        r
    }

    /// A JSON string.
    pub fn string(s: &str) -> (r: Json)
        ensures
            r@ == JsonV::Str(s@),
    {
        Json::Str(s.to_owned())
    }

    /// A JSON number with the value of `n`.
    pub fn integer(n: i64) -> (r: Json)
        ensures
            r@ == int_json(n as int),
    {
        Json::Number(i64_to_string(n))
    }

    /// A JSON number with the value of `n`.
    pub fn natural(n: u64) -> (r: Json)
        ensures
            r@ == int_json(n as int),
    {
        Json::Number(u64_to_string(n))
    }

    /// `value.get(key)`.
    #[verifier::loop_isolation(false)]
    pub fn get(&self, key: &str) -> (r: Option<&Json>)
        ensures
            opt_view(r) == self@.field(key@),
    {
        match self {
            Json::Object(fields) => {
                proof {
                    self.lemma_object_view();
                }
                let ghost fs = fviews(fields@);
                assert(fs.skip(0) =~= fs);
                let mut i: usize = 0;
                while i < fields.len()
                    invariant
                        i <= fields@.len(),
                        fs == fviews(fields@),
                        lookup(fs, key@) == lookup(fs.skip(i as int), key@),
                    decreases fields@.len() - i,
                {
                    assert(fs.skip(i as int)[0] == fs[i as int]);
                    if str_eq(fields[i].0.as_str(), key) {
                        assert(fs[i as int] == (fields@[i as int].0@, fields@[i as int].1@));
                        assert(fs.skip(i as int).len() > 0);
                        assert(lookup(fs.skip(i as int), key@) == Some(fs[i as int].1));
                        return Some(&fields[i].1);
                    }
                    assert(fs[i as int] == (fields@[i as int].0@, fields@[i as int].1@));
                    assert(fs.skip(i as int).drop_first() =~= fs.skip(i + 1));
                    i += 1;
                }
                None
            },
            _ => None,
        }
    }

    /// `value.get(i)` on an array.
    pub fn get_index(&self, i: usize) -> (r: Option<&Json>)
        ensures
            opt_view(r) == self@.item(i as int),
    {
        match self {
            Json::Array(items) => {
                proof {
                    self.lemma_array_view();
                }
                if i < items.len() {
                    Some(&items[i])
                } else {
                    None
                }
            },
            _ => None,
        }
    }

    /// `value.as_str()`.
    pub fn as_str(&self) -> (r: Option<&str>)
        ensures
            opt_str_view(r) == self@.as_str(),
    {
        match self {
            Json::Str(s) => Some(s.as_str()),
            _ => None,
        }
    }

    /// `value.as_bool()`.
    pub fn as_bool(&self) -> (r: Option<bool>)
        ensures
            r == self@.as_bool(),
    {
        match self {
            Json::Bool(b) => Some(*b),
            _ => None,
        }
    }

    /// `value.as_array()`.
    pub fn as_array(&self) -> (r: Option<&Vec<Json>>)
        ensures
            match r {
                Some(a) => self@.as_array() == Some(jviews(a@)),
                None => self@.as_array() is None,
            },
    {
        match self {
            Json::Array(items) => {
                proof {
                    self.lemma_array_view();
                }
                Some(items)
            },
            _ => None,
        }
    }

    pub fn is_null(&self) -> (r: bool)
        ensures
            r == (self@ is Null),
    {
        match self {
            Json::Null => true,
            _ => false,
        }
    }

    pub fn is_object(&self) -> (r: bool)
        ensures
            r == (self@ is Object),
    {
        match self {
            Json::Object(_) => true,
            _ => false,
        }
    }

    /// Whether the value is the JSON string `s` (`value == s`).
    pub fn is_str(&self, s: &str) -> (r: bool)
        ensures
            r == (self@ == JsonV::Str(s@)),
    {
        match self {
            Json::Str(t) => str_eq(t.as_str(), s),
            _ => false,
        }
    }

    /// `value.get(key).and_then(as_str)`.
    pub fn get_str(&self, key: &str) -> (r: Option<&str>)
        ensures
            opt_str_view(r) == self@.field_str(key@),
    {
        match self.get(key) {
            Some(v) => v.as_str(),
            None => None,
        }
    }

    /// `value.get(key).and_then(as_str).unwrap_or(default)`.
    pub fn str_or<'a>(&'a self, key: &str, default: &'a str) -> (r: &'a str)
        ensures
            r@ == self@.str_or(key@, default@),
    {
        match self.get_str(key) {
            Some(s) => s,
            None => default,
        }
    }

    /// `value.get(key).and_then(as_array)`.
    pub fn get_array(&self, key: &str) -> (r: Option<&Vec<Json>>)
        ensures
            match r {
                Some(a) => self@.field_array(key@) == Some(jviews(a@)),
                None => self@.field_array(key@) is None,
            },
    {
        match self.get(key) {
            Some(v) => v.as_array(),
            None => None,
        }
    }

    /// A copy of the value.
    #[verifier::loop_isolation(false)]
    pub fn duplicate(&self) -> (r: Json)
        ensures
            r@ == self@,
        decreases self,
    {
        match self {
            Json::Null => Json::Null,
            Json::Bool(b) => Json::Bool(*b),
            Json::Number(t) => Json::Number(t.clone()),
            Json::Str(s) => Json::Str(s.clone()),
            Json::Array(items) => {
                proof {
                    self.lemma_array_view();
                }
                let mut out: Vec<Json> = Vec::new();
                let mut i: usize = 0;
                while i < items.len()
                    invariant
                        i <= items@.len(),
                        out@.len() == i,
                        forall|k: int| 0 <= k < i ==> (#[trigger] out@[k])@ == items@[k]@,
                    decreases items@.len() - i,
                {
                    proof {
                        assert(decreases_to!(*self => self->Array_0));
                        assert(decreases_to!(self->Array_0 => self->Array_0[i as int]));
                    }
                    out.push(items[i].duplicate());
                    i += 1;
                }
                let r = Json::array(out);
                assert(jviews(out@) =~= jviews(items@));
                r
            },
            Json::Object(fields) => {
                proof {
                    self.lemma_object_view();
                }
                let mut out: Vec<(String, Json)> = Vec::new();
                let mut i: usize = 0;
                while i < fields.len()
                    invariant
                        i <= fields@.len(),
                        out@.len() == i,
                        forall|k: int|
                            0 <= k < i ==> (#[trigger] out@[k]).0@ == fields@[k].0@ && out@[k].1@
                                == fields@[k].1@,
                    decreases fields@.len() - i,
                {
                    proof {
                        assert(decreases_to!(*self => self->Object_0));
                        assert(decreases_to!(self->Object_0 => self->Object_0[i as int]));
                        assert(decreases_to!(self->Object_0[i as int] => self->Object_0[i as int].1));
                    }
                    let v = fields[i].1.duplicate();
                    out.push((fields[i].0.clone(), v));
                    i += 1;
                }
                let r = Json::object(out);
                assert(fviews(out@) =~= fviews(fields@));
                r
            },
        }
    }

    /// `value[key] = v`: on an object, sets the first field named `key` or
    /// adds it at the end; other values are left as they are.
    pub fn set(&mut self, key: &str, v: Json)
        ensures
            final(self)@ == old(self)@.with_field(key@, v@),
    {
        if let Json::Object(fields) = self {
            proof {
                old(self).lemma_object_view();
            }
            set_in_fields(fields, key, v);
        }
        proof {
            if *self is Object {
                self.lemma_object_view();
            }
        }
    }
}

/// Sets the first field named `key` to `v`, or adds it at the end.
pub fn set_in_fields(fields: &mut Vec<(String, Json)>, key: &str, v: Json)
    ensures
        fviews(final(fields)@) == set_field(fviews(old(fields)@), key@, v@),
{
    let ghost fs0 = fviews(fields@);
    assert(fs0.skip(0) =~= fs0);
    assert(fs0.take(0) =~= Seq::<(Seq<char>, JsonV)>::empty());
    let mut i: usize = 0;
    while i < fields.len()
        invariant
            i <= fields@.len(),
            fviews(fields@) == fs0,
            fs0 == fviews(old(fields)@),
            set_field(fs0, key@, v@) == fs0.take(i as int) + set_field(fs0.skip(i as int), key@, v@),
        decreases fields@.len() - i,
    {
        assert(fs0.skip(i as int)[0] == fs0[i as int]);
        assert(fs0[i as int] == (fields@[i as int].0@, fields@[i as int].1@));
        if str_eq(fields[i].0.as_str(), key) {
            fields.set(i, (key.to_owned(), v));
            assert(fviews(fields@) =~= fs0.take(i as int) + fs0.skip(i as int).update(0, (key@, v@)));
            return;
        }
        assert(fs0.skip(i as int).drop_first() =~= fs0.skip(i + 1));
        assert(fs0.take(i + 1) =~= fs0.take(i as int) + seq![fs0[i as int]]);
        i += 1;
    }
    fields.push((key.to_owned(), v));
    assert(fs0.skip(i as int) =~= Seq::<(Seq<char>, JsonV)>::empty());
    assert(fs0.take(i as int) =~= fs0);
    assert(fviews(fields@) =~= fs0 + seq![(key@, v@)]);
}

/// Adds the field `key: v` at the end of `fields`.
pub fn push_field(fields: &mut Vec<(String, Json)>, key: &str, v: Json)
    ensures
        fviews(final(fields)@) == fviews(old(fields)@).push((key@, v@)),
{
    let ghost k = key@;
    let ghost jv = v@;
    fields.push((owned(key), v));
    assert(fviews(fields@) =~= fviews(old(fields)@).push((k, jv)));
}

/// `{k1: v1}`.
pub fn obj1(k1: &str, v1: Json) -> (r: Json)
    ensures
        r@ == JsonV::Object(seq![(k1@, v1@)]),
{
    let ghost g = seq![(k1@, v1@)];
    let mut f: Vec<(String, Json)> = Vec::new();
    push_field(&mut f, k1, v1);
    assert(fviews(f@) =~= g);
    Json::object(f)
}

/// `{k1: v1, k2: v2}`.
pub fn obj2(k1: &str, v1: Json, k2: &str, v2: Json) -> (r: Json)
    ensures
        r@ == JsonV::Object(seq![(k1@, v1@), (k2@, v2@)]),
{
    let ghost g = seq![(k1@, v1@), (k2@, v2@)];
    let mut f: Vec<(String, Json)> = Vec::new();
    push_field(&mut f, k1, v1);
    push_field(&mut f, k2, v2);
    assert(fviews(f@) =~= g);
    Json::object(f)
}

/// `{k1: v1, k2: v2, k3: v3}`.
pub fn obj3(k1: &str, v1: Json, k2: &str, v2: Json, k3: &str, v3: Json) -> (r: Json)
    ensures
        r@ == JsonV::Object(seq![(k1@, v1@), (k2@, v2@), (k3@, v3@)]),
{
    let ghost g = seq![(k1@, v1@), (k2@, v2@), (k3@, v3@)];
    let mut f: Vec<(String, Json)> = Vec::new();
    push_field(&mut f, k1, v1);
    push_field(&mut f, k2, v2);
    push_field(&mut f, k3, v3);
    assert(fviews(f@) =~= g);
    Json::object(f)
}

/// `{k1: v1, .., k4: v4}`.
pub fn obj4(k1: &str, v1: Json, k2: &str, v2: Json, k3: &str, v3: Json, k4: &str, v4: Json) -> (r: Json)
    ensures
        r@ == JsonV::Object(seq![(k1@, v1@), (k2@, v2@), (k3@, v3@), (k4@, v4@)]),
{
    let ghost g = seq![(k1@, v1@), (k2@, v2@), (k3@, v3@), (k4@, v4@)];
    let mut f: Vec<(String, Json)> = Vec::new();
    push_field(&mut f, k1, v1);
    push_field(&mut f, k2, v2);
    push_field(&mut f, k3, v3);
    push_field(&mut f, k4, v4);
    assert(fviews(f@) =~= g);
    Json::object(f)
}

/// `{k1: v1, .., k5: v5}`.
pub fn obj5(k1: &str, v1: Json, k2: &str, v2: Json, k3: &str, v3: Json, k4: &str, v4: Json, k5: &str, v5: Json) -> (r: Json)
    ensures
        r@ == JsonV::Object(seq![(k1@, v1@), (k2@, v2@), (k3@, v3@), (k4@, v4@), (k5@, v5@)]),
{
    let ghost g = seq![(k1@, v1@), (k2@, v2@), (k3@, v3@), (k4@, v4@), (k5@, v5@)];
    let mut f: Vec<(String, Json)> = Vec::new();
    push_field(&mut f, k1, v1);
    push_field(&mut f, k2, v2);
    push_field(&mut f, k3, v3);
    push_field(&mut f, k4, v4);
    push_field(&mut f, k5, v5);
    assert(fviews(f@) =~= g);
    Json::object(f)
}

/// `{k1: v1, .., k6: v6}`.
pub fn obj6(k1: &str, v1: Json, k2: &str, v2: Json, k3: &str, v3: Json, k4: &str, v4: Json, k5: &str, v5: Json, k6: &str, v6: Json) -> (r: Json)
    ensures
        r@ == JsonV::Object(seq![(k1@, v1@), (k2@, v2@), (k3@, v3@), (k4@, v4@), (k5@, v5@), (k6@, v6@)]),
{
    let ghost g = seq![(k1@, v1@), (k2@, v2@), (k3@, v3@), (k4@, v4@), (k5@, v5@), (k6@, v6@)];
    let mut f: Vec<(String, Json)> = Vec::new();
    push_field(&mut f, k1, v1);
    push_field(&mut f, k2, v2);
    push_field(&mut f, k3, v3);
    push_field(&mut f, k4, v4);
    push_field(&mut f, k5, v5);
    push_field(&mut f, k6, v6);
    assert(fviews(f@) =~= g);
    Json::object(f)
}

/// `{k1: v1, .., k7: v7}`.
pub fn obj7(k1: &str, v1: Json, k2: &str, v2: Json, k3: &str, v3: Json, k4: &str, v4: Json, k5: &str, v5: Json, k6: &str, v6: Json, k7: &str, v7: Json) -> (r: Json)
    ensures
        r@ == JsonV::Object(seq![(k1@, v1@), (k2@, v2@), (k3@, v3@), (k4@, v4@), (k5@, v5@), (k6@, v6@), (k7@, v7@)]),
{
    let ghost g = seq![(k1@, v1@), (k2@, v2@), (k3@, v3@), (k4@, v4@), (k5@, v5@), (k6@, v6@), (k7@, v7@)];
    let mut f: Vec<(String, Json)> = Vec::new();
    push_field(&mut f, k1, v1);
    push_field(&mut f, k2, v2);
    push_field(&mut f, k3, v3);
    push_field(&mut f, k4, v4);
    push_field(&mut f, k5, v5);
    push_field(&mut f, k6, v6);
    push_field(&mut f, k7, v7);
    assert(fviews(f@) =~= g);
    Json::object(f)
}

/// `[]`.
pub fn arr0() -> (r: Json)
    ensures
        r@ == JsonV::Array(Seq::empty()),
{
    let a: Vec<Json> = Vec::new();
    assert(jviews(a@) =~= Seq::<JsonV>::empty());
    Json::array(a)
}

/// A copy of the values of `v`.
pub fn copy_all(v: &Vec<Json>) -> (r: Vec<Json>)
    ensures
        jviews(r@) == jviews(v@),
{
    let mut out: Vec<Json> = Vec::new();
    let mut i: usize = 0;
    while i < v.len()
        invariant
            i <= v@.len(),
            jviews(out@) == jviews(v@).take(i as int),
        decreases v@.len() - i,
    {
        let d = v[i].duplicate();
        proof {
            lemma_jviews_push(out@, d);
        }
        out.push(d);
        assert(jviews(out@) =~= jviews(v@).take(i + 1));
        i += 1;
    }
    assert(jviews(v@).take(v@.len() as int) =~= jviews(v@));
    out
}

/// `[v]`.
pub fn arr1(v: Json) -> (r: Json)
    ensures
        r@ == JsonV::Array(seq![v@]),
{
    let ghost g = seq![v@];
    let mut a: Vec<Json> = Vec::new();
    a.push(v);
    assert(jviews(a@) =~= g);
    Json::array(a)
}

/// `value[key]`: the field of an object, null where there is none.
pub open spec fn index_field(v: JsonV, key: Seq<char>) -> JsonV {
    match v.field(key) {
        Some(x) => x,
        None => JsonV::Null,
    }
}

/// `value[key]` as a copy.
pub fn index_field_exec(v: &Json, key: &str) -> (r: Json)
    ensures
        r@ == index_field(v@, key@),
{
    match v.get(key) {
        Some(x) => x.duplicate(),
        None => Json::Null,
    }
}

// ---------------------------------------------------------------------------
// serde_json
// ---------------------------------------------------------------------------

#[verifier::external_type_specification]
#[verifier::external_body]
pub struct ExSerdeValue(serde_json::Value);

/// What `serde_json::from_str::<serde_json::Value>` makes of `text`, in the
/// library's model (`None` where the text is not JSON).
pub uninterp spec fn spec_json_parse(text: Seq<char>) -> Option<JsonV>;

/// The compact JSON text that `serde_json::to_string` writes for `v`.
pub uninterp spec fn spec_json_text(v: JsonV) -> Seq<char>;

/// The indented JSON text that `serde_json::to_string_pretty` writes for `v`.
pub uninterp spec fn spec_json_pretty(v: JsonV) -> Seq<char>;

/// The model of an optional value.
pub open spec fn opt_json_view(o: Option<Json>) -> Option<JsonV> {
    match o {
        Some(j) => Some(j@),
        None => None,
    }
}

/// Moves a `serde_json::Value` into the library's type, one variant to the
/// same variant; a number keeps the text that serde_json writes for it.
#[verifier::external_body]
fn from_serde(v: serde_json::Value) -> Json {
    match v {
        serde_json::Value::Null => Json::Null,
        serde_json::Value::Bool(b) => Json::Bool(b),
        serde_json::Value::Number(n) => Json::Number(n.to_string()),
        serde_json::Value::String(s) => Json::Str(s),
        serde_json::Value::Array(a) => Json::Array(a.into_iter().map(from_serde).collect()),
        serde_json::Value::Object(m) => Json::Object(m.into_iter().map(|(k, x)| (k, from_serde(x))).collect()),
    }
}

/// Moves the library's value into a `serde_json::Value`, one variant to the
/// same variant; number text that serde_json does not read as a number
/// becomes null, and of two fields with one name the later one stays.
#[verifier::external_body]
fn to_serde(j: &Json) -> serde_json::Value {
    match j {
        Json::Null => serde_json::Value::Null,
        Json::Bool(b) => serde_json::Value::Bool(*b),
        Json::Number(t) => serde_json::from_str::<serde_json::Number>(t).map_or(serde_json::Value::Null, serde_json::Value::Number),
        Json::Str(s) => serde_json::Value::String(s.clone()),
        Json::Array(a) => serde_json::Value::Array(a.iter().map(to_serde).collect()),
        Json::Object(f) => serde_json::Value::Object(f.iter().map(|(k, x)| (k.clone(), to_serde(x))).collect()),
    }
}

/// `serde_json::from_str::<serde_json::Value>(text).ok()`: the result is
/// named by [`spec_json_parse`]; nothing more of it is stated.
#[verifier::external_body]
pub(crate) fn json_from_str(text: &str) -> (r: Option<Json>)
    ensures
        opt_json_view(r) == spec_json_parse(text@),
{
    serde_json::from_str::<serde_json::Value>(text).ok().map(from_serde)
}

/// `serde_json::to_string`: the compact text is named by [`spec_json_text`].
/// Writing a `serde_json::Value` does not fail; the empty string stands for
/// the failure that does not occur.
#[verifier::external_body]
pub(crate) fn json_to_string(v: &Json) -> (r: String)
    ensures
        r@ == spec_json_text(v@),
{
    serde_json::to_string(&to_serde(v)).unwrap_or_default()
}

/// `serde_json::to_string_pretty`: the indented text is named by
/// [`spec_json_pretty`]. Writing a `serde_json::Value` does not fail; the
/// empty string stands for the failure that does not occur.
#[verifier::external_body]
pub(crate) fn json_to_string_pretty(v: &Json) -> (r: String)
    ensures
        r@ == spec_json_pretty(v@),
{
    serde_json::to_string_pretty(&to_serde(v)).unwrap_or_default()
}

/// Reads a JSON document: `serde_json::from_str` into a value, `None` where
/// the text is not JSON.
pub fn parse_json(text: &str) -> (r: Option<Json>)
    ensures
        opt_json_view(r) == spec_json_parse(text@),
{
    json_from_str(text)
}

/// The compact JSON text of `v`.
pub fn to_json_text(v: &Json) -> (r: String)
    ensures
        r@ == spec_json_text(v@),
{
    json_to_string(v)
}

} // verus!
