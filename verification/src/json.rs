//! A JSON document held as plain values, with the lookups and edits that the
//! proxy performs on request and response bodies.
use vstd::prelude::*;
use crate::text;

verus! {

/// A JSON value. Objects are association lists; a lookup finds the first
/// field with the given key. Floating-point numbers are carried through
/// unchanged as their decimal text.
pub enum Json {
    Null,
    Bool(bool),
    UInt(u64),
    Int(i64),
    Float(String),
    Text(String),
    Array(Vec<Json>),
    Object(Vec<(String, Json)>),
}

/// The mathematical model of a [`Json`] value.
pub enum JsonView {
    Null,
    Bool(bool),
    UInt(u64),
    Int(i64),
    Float(Seq<char>),
    Text(Seq<char>),
    Array(Seq<JsonView>),
    Object(Seq<(Seq<char>, JsonView)>),
}

pub open spec fn items_view(s: Seq<Json>) -> Seq<JsonView>
    decreases s,
{
    if s.len() == 0 {
        Seq::empty()
    } else {
        items_view(s.subrange(0, s.len() - 1)).push(json_view(s[s.len() - 1]))
    }
}

pub open spec fn fields_view(s: Seq<(String, Json)>) -> Seq<(Seq<char>, JsonView)>
    decreases s,
{
    if s.len() == 0 {
        Seq::empty()
    } else {
        fields_view(s.subrange(0, s.len() - 1)).push(
            (s[s.len() - 1].0@, json_view(s[s.len() - 1].1)),
        )
    }
}

pub open spec fn json_view(j: Json) -> JsonView
    decreases j,
{
    match j {
        Json::Null => JsonView::Null,
        Json::Bool(b) => JsonView::Bool(b),
        Json::UInt(n) => JsonView::UInt(n),
        Json::Int(n) => JsonView::Int(n),
        Json::Float(t) => JsonView::Float(t@),
        Json::Text(t) => JsonView::Text(t@),
        Json::Array(items) => JsonView::Array(items_view(items@)),
        Json::Object(fields) => JsonView::Object(fields_view(fields@)),
    }
}

impl View for Json {
    type V = JsonView;

    open spec fn view(&self) -> JsonView {
        json_view(*self)
    }
}

/// The position of the first field named `k`, or -1 when there is none.
pub open spec fn key_index(f: Seq<(Seq<char>, JsonView)>, k: Seq<char>) -> int
    decreases f.len(),
{
    if f.len() == 0 {
        -1
    } else if f[0].0 == k {
        0
    } else {
        let r = key_index(f.drop_first(), k);
        if r < 0 {
            -1
        } else {
            r + 1
        }
    }
}

/// The value of the first field named `k`.
pub open spec fn lookup(f: Seq<(Seq<char>, JsonView)>, k: Seq<char>) -> Option<JsonView> {
    let i = key_index(f, k);
    if i >= 0 {
        Some(f[i].1)
    } else {
        None
    }
}

/// The fields after `f[k] = v`: the first field named `k` takes the value
/// `v`, or the field is appended when there is none.
pub open spec fn assign_field(f: Seq<(Seq<char>, JsonView)>, k: Seq<char>, v: JsonView) -> Seq<
    (Seq<char>, JsonView),
> {
    let i = key_index(f, k);
    if i >= 0 {
        f.update(i, (k, v))
    } else {
        f.push((k, v))
    }
}

/// A view of an optional borrowed value.
pub open spec fn opt_view(o: Option<&Json>) -> Option<JsonView> {
    match o {
        Some(j) => Some(j@),
        None => None,
    }
}

/// A view of an optional owned value.
pub open spec fn opt_json_view(o: Option<Json>) -> Option<JsonView> {
    match o {
        Some(j) => Some(j@),
        None => None,
    }
}

/// A view of an optional owned string.
pub open spec fn opt_string_view(o: Option<String>) -> Option<Seq<char>> {
    match o {
        Some(s) => Some(s@),
        None => None,
    }
}

/// A view of an optional string slice.
pub open spec fn opt_str_view(o: Option<&str>) -> Option<Seq<char>> {
    match o {
        Some(s) => Some(s@),
        None => None,
    }
}

impl JsonView {
    /// `self.get(k)`: the first field named `k` of an object.
    pub open spec fn field(self, k: Seq<char>) -> Option<JsonView> {
        match self {
            JsonView::Object(f) => lookup(f, k),
            _ => None,
        }
    }

    /// The element at position `i` of an array.
    pub open spec fn item(self, i: int) -> Option<JsonView> {
        match self {
            JsonView::Array(a) => if 0 <= i < a.len() {
                Some(a[i])
            } else {
                None
            },
            _ => None,
        }
    }

    pub open spec fn text(self) -> Option<Seq<char>> {
        match self {
            JsonView::Text(t) => Some(t),
            _ => None,
        }
    }

    /// The value as an unsigned integer, when it is a non-negative integer.
    pub open spec fn unsigned(self) -> Option<u64> {
        match self {
            JsonView::UInt(n) => Some(n),
            JsonView::Int(n) => if n >= 0 {
                Some(n as u64)
            } else {
                None
            },
            _ => None,
        }
    }

    pub open spec fn boolean(self) -> Option<bool> {
        match self {
            JsonView::Bool(b) => Some(b),
            _ => None,
        }
    }

    /// `self[k] = v` on an object, or on null, which first becomes an empty
    /// object.
    pub open spec fn assign(self, k: Seq<char>, v: JsonView) -> JsonView {
        match self {
            JsonView::Object(f) => JsonView::Object(assign_field(f, k, v)),
            _ => JsonView::Object(seq![(k, v)]),
        }
    }

    pub open spec fn field_text(self, k: Seq<char>) -> Option<Seq<char>> {
        match self.field(k) {
            Some(v) => v.text(),
            None => None,
        }
    }

    pub open spec fn field_unsigned(self, k: Seq<char>) -> Option<u64> {
        match self.field(k) {
            Some(v) => v.unsigned(),
            None => None,
        }
    }
}

pub proof fn lemma_items_view(s: Seq<Json>)
    ensures
        items_view(s).len() == s.len(),
        forall|i: int| 0 <= i < s.len() ==> #[trigger] items_view(s)[i] == json_view(s[i]),
    decreases s.len(),
{
    if s.len() > 0 {
        lemma_items_view(s.subrange(0, s.len() - 1));
    }
}

pub proof fn lemma_fields_view(s: Seq<(String, Json)>)
    ensures
        fields_view(s).len() == s.len(),
        forall|i: int|
            0 <= i < s.len() ==> #[trigger] fields_view(s)[i] == (s[i].0@, json_view(s[i].1)),
    decreases s.len(),
{
    if s.len() > 0 {
        lemma_fields_view(s.subrange(0, s.len() - 1));
    }
}

pub proof fn lemma_key_index(f: Seq<(Seq<char>, JsonView)>, k: Seq<char>)
    ensures
        -1 <= key_index(f, k) < f.len(),
        key_index(f, k) >= 0 ==> f[key_index(f, k)].0 == k,
        forall|j: int| 0 <= j < key_index(f, k) ==> #[trigger] f[j].0 != k,
        key_index(f, k) < 0 ==> forall|j: int| 0 <= j < f.len() ==> #[trigger] f[j].0 != k,
    decreases f.len(),
{
    if f.len() > 0 && f[0].0 != k {
        lemma_key_index(f.drop_first(), k);
        assert forall|j: int| 0 <= j < key_index(f, k) implies #[trigger] f[j].0 != k by {
            if j > 0 {
                assert(f[j] == f.drop_first()[j - 1]);
            }
        }
        if key_index(f, k) < 0 {
            assert forall|j: int| 0 <= j < f.len() implies #[trigger] f[j].0 != k by {
                if j > 0 {
                    assert(f[j] == f.drop_first()[j - 1]);
                }
            }
        }
    }
}

/// The first matching position is the one that `key_index` names.
pub proof fn lemma_key_index_at(f: Seq<(Seq<char>, JsonView)>, k: Seq<char>, i: int)
    requires
        0 <= i < f.len(),
        f[i].0 == k,
        forall|j: int| 0 <= j < i ==> #[trigger] f[j].0 != k,
    ensures
        key_index(f, k) == i,
{
    lemma_key_index(f, k);
}

/// Reading a field back after writing it gives the written value, and
/// writing a field leaves every other field as it was.
pub proof fn law_assign_then_field(v: JsonView, k: Seq<char>, x: JsonView, k2: Seq<char>)
    requires
        v is Object || v is Null,
    ensures
        v.assign(k, x).field(k) == Some(x),
        k2 != k ==> v.assign(k, x).field(k2) == v.field(k2),
{
    let f = match v {
        JsonView::Object(f) => f,
        _ => Seq::<(Seq<char>, JsonView)>::empty(),
    };
    assert(v.assign(k, x) == JsonView::Object(assign_field(f, k, x)));
    let g = assign_field(f, k, x);
    lemma_key_index(f, k);
    lemma_key_index(f, k2);
    lemma_key_index(g, k2);
    let i = key_index(f, k);
    if i >= 0 {
        assert forall|j: int| 0 <= j < i implies #[trigger] g[j].0 != k by {
            assert(g[j] == f[j]);
        }
        lemma_key_index_at(g, k, i);
    } else {
        assert forall|j: int| 0 <= j < f.len() implies #[trigger] g[j].0 != k by {
            assert(g[j] == f[j]);
        }
        lemma_key_index_at(g, k, f.len() as int);
    }
    if k2 != k {
        let i2 = key_index(f, k2);
        if i2 >= 0 {
            assert forall|j: int| 0 <= j < i2 implies #[trigger] g[j].0 != k2 by {
                if j != i {
                    assert(g[j] == f[j]);
                }
            }
            assert(g[i2] == f[i2]);
            lemma_key_index_at(g, k2, i2);
        } else {
            assert forall|j: int| 0 <= j < g.len() implies #[trigger] g[j].0 != k2 by {
                if j < f.len() && j != i {
                    assert(g[j] == f[j]);
                }
            }
            if key_index(g, k2) >= 0 {
                assert(g[key_index(g, k2)].0 == k2);
            }
        }
    }
}

/// Appends the field `key: value` to a list of fields.
pub fn push_field(fields: &mut Vec<(String, Json)>, key: &str, value: Json)
    ensures
        fields_view(final(fields)@) == fields_view(old(fields)@).push((key@, value@)),
{
    let ghost before = fields@;
    fields.push((text::owned(key), value));
    assert(fields@.subrange(0, fields@.len() - 1) =~= before);
}

/// Appends `value` to a list of array elements.
pub fn push_item(items: &mut Vec<Json>, value: Json)
    ensures
        items_view(final(items)@) == items_view(old(items)@).push(value@),
{
    let ghost before = items@;
    items.push(value);
    assert(items@.subrange(0, items@.len() - 1) =~= before);
}

/// The position of the first field named `key`.
pub fn find_key(fields: &Vec<(String, Json)>, key: &str) -> (r: Option<usize>)
    ensures
        match r {
            Some(i) => i as int == key_index(fields_view(fields@), key@) && i < fields@.len(),
            None => key_index(fields_view(fields@), key@) < 0,
        },
{
    proof {
        lemma_fields_view(fields@);
        lemma_key_index(fields_view(fields@), key@);
    }
    let mut i: usize = 0;
    while i < fields.len()
        invariant
            i <= fields.len(),
            fields_view(fields@).len() == fields@.len(),
            forall|j: int|
                0 <= j < fields@.len() ==> #[trigger] fields_view(fields@)[j] == (
                fields@[j].0@,
                json_view(fields@[j].1),
            ),
            forall|j: int| 0 <= j < i ==> #[trigger] fields@[j].0@ != key@,
        decreases fields.len() - i,
    {
        if text::str_eq(fields[i].0.as_str(), key) {
            proof {
                lemma_key_index_at(fields_view(fields@), key@, i as int);
            }
            return Some(i);
        }
        i = i + 1;
    }
    proof {
        let fv = fields_view(fields@);
        if key_index(fv, key@) >= 0 {
            let t = key_index(fv, key@);
            assert(fields@[t].0@ != key@);
        }
    }
    None
}

impl Json {
    /// The first field named `key` of an object (`None` for other values).
    pub fn get(&self, key: &str) -> (r: Option<&Json>)
        ensures
            opt_view(r) == self@.field(key@),
    {
        match self {
            Json::Object(fields) => {
                proof {
                    lemma_fields_view(fields@);
                    lemma_key_index(fields_view(fields@), key@);
                }
                let mut i: usize = 0;
                while i < fields.len()
                    invariant
                        i <= fields.len(),
                        self@ == JsonView::Object(fields_view(fields@)),
                        fields_view(fields@).len() == fields@.len(),
                        forall|j: int|
                            0 <= j < fields@.len() ==> #[trigger] fields_view(fields@)[j] == (
                            fields@[j].0@,
                            json_view(fields@[j].1),
                        ),
                        forall|j: int| 0 <= j < i ==> #[trigger] fields@[j].0@ != key@,
                    decreases fields.len() - i,
                {
                    if text::str_eq(fields[i].0.as_str(), key) {
                        proof {
                            lemma_key_index_at(fields_view(fields@), key@, i as int);
                            assert(fields_view(fields@)[i as int] == (
                                fields@[i as int].0@,
                                json_view(fields@[i as int].1),
                            ));
                        }
                        let r = &fields[i].1;
                        return Some(r);
                    }
                    i = i + 1;
                }
                proof {
                    let fv = fields_view(fields@);
                    if key_index(fv, key@) >= 0 {
                        let t = key_index(fv, key@);
                        assert(fields@[t].0@ != key@);
                    }
                }
                None
            },
            _ => None,
        }
    }

    /// The element at position `i` of an array (`None` for other values or
    /// positions past the end).
    pub fn at(&self, i: usize) -> (r: Option<&Json>)
        ensures
            opt_view(r) == self@.item(i as int),
    {
        match self {
            Json::Array(items) => {
                proof {
                    lemma_items_view(items@);
                }
                if i < items.len() {
                    Some(&items[i])
                } else {
                    None
                }
            },
            _ => None,
        }
    }

    pub fn as_str(&self) -> (r: Option<&str>)
        ensures
            opt_str_view(r) == self@.text(),
    {
        match self {
            Json::Text(t) => Some(t.as_str()),
            _ => None,
        }
    }

    pub fn as_u64(&self) -> (r: Option<u64>)
        ensures
            r == self@.unsigned(),
    {
        match self {
            Json::UInt(n) => Some(*n),
            Json::Int(n) => if *n >= 0 {
                Some(*n as u64)
            } else {
                None
            },
            _ => None,
        }
    }

    pub fn as_bool(&self) -> (r: Option<bool>)
        ensures
            r == self@.boolean(),
    {
        match self {
            Json::Bool(b) => Some(*b),
            _ => None,
        }
    }

    pub fn as_array(&self) -> (r: Option<&Vec<Json>>)
        ensures
            match r {
                Some(v) => self@ == JsonView::Array(items_view(v@)),
                None => !(self@ is Array),
            },
    {
        match self {
            Json::Array(items) => Some(items),
            _ => None,
        }
    }

    pub fn is_null(&self) -> (r: bool)
        ensures
            r == (self@ is Null),
    {
        match self {
            Json::Null => true,
            _ => false,
        }
    }

    pub fn is_object(&self) -> (r: bool)
        ensures
            r == (self@ is Object),
    {
        match self {
            Json::Object(_) => true,
            _ => false,
        }
    }

    pub fn is_array(&self) -> (r: bool)
        ensures
            r == (self@ is Array),
    {
        match self {
            Json::Array(_) => true,
            _ => false,
        }
    }

    /// A copy of the whole value.
    pub fn deep_clone(&self) -> (r: Json)
        ensures
            r@ == self@,
        decreases self,
    {
        match self {
            Json::Null => Json::Null,
            Json::Bool(b) => Json::Bool(*b),
            Json::UInt(n) => Json::UInt(*n),
            Json::Int(n) => Json::Int(*n),
            Json::Float(t) => Json::Float(t.clone()),
            Json::Text(t) => Json::Text(t.clone()),
            Json::Array(items) => {
                let mut out: Vec<Json> = Vec::new();
                let mut i: usize = 0;
                while i < items.len()
                    invariant
                        i <= items.len(),
                        *self == Json::Array(*items),
                        out@.len() == i,
                        forall|j: int| 0 <= j < i ==> #[trigger] json_view(out@[j]) == json_view(items@[j]),
                    decreases items.len() - i,
                {
                    proof {
                        assert(decreases_to!(*self => (*self)->Array_0));
                        assert(decreases_to!(*items => items@));
                        assert(decreases_to!(items@ => items@[i as int]));
                        assert(decreases_to!(*self => items@[i as int]));
                    }
                    let c = items[i].deep_clone();
                    out.push(c);
                    i = i + 1;
                }
                proof {
                    lemma_items_view(out@);
                    lemma_items_view(items@);
                    assert(items_view(out@) =~= items_view(items@));
                }
                Json::Array(out)
            },
            Json::Object(fields) => {
                let mut out: Vec<(String, Json)> = Vec::new();
                let mut i: usize = 0;
                while i < fields.len()
                    invariant
                        i <= fields.len(),
                        *self == Json::Object(*fields),
                        out@.len() == i,
                        forall|j: int|
                            0 <= j < i ==> #[trigger] out@[j].0@ == fields@[j].0@ && json_view(
                                out@[j].1,
                            ) == json_view(fields@[j].1),
                    decreases fields.len() - i,
                {
                    let k = fields[i].0.clone();
                    proof {
                        assert(decreases_to!(*self => (*self)->Object_0));
                        assert(decreases_to!(*fields => fields@));
                        assert(decreases_to!(fields@ => fields@[i as int]));
                        assert(decreases_to!(fields@[i as int] => fields@[i as int].1));
                        assert(decreases_to!(*self => fields@[i as int].1));
                    }
                    let v = fields[i].1.deep_clone();
                    out.push((k, v));
                    i = i + 1;
                }
                proof {
                    lemma_fields_view(out@);
                    lemma_fields_view(fields@);
                    assert(fields_view(out@) =~= fields_view(fields@));
                }
                Json::Object(out)
            },
        }
    }

    /// `self[key] = value` on an object; a null value first becomes an
    /// empty object.
    pub fn assign(&mut self, key: &str, value: Json)
        requires
            old(self)@ is Object || old(self)@ is Null,
        ensures
            final(self)@ == old(self)@.assign(key@, value@),
    {
        let mut cur = Json::Null;
        std::mem::swap(&mut cur, self);
        match cur {
            Json::Object(mut fields) => {
                proof {
                    lemma_fields_view(fields@);
                }
                let ghost before = fields@;
                match find_key(&fields, key) {
                    Some(i) => {
                        fields.set(i, (text::owned(key), value));
                    },
                    None => {
                        fields.push((text::owned(key), value));
                    },
                }
                proof {
                    lemma_fields_view(fields@);
                    assert(fields_view(fields@) =~= assign_field(
                        fields_view(before),
                        key@,
                        value@,
                    ));
                }
                *self = Json::Object(fields);
            },
            _ => {
                let mut fields: Vec<(String, Json)> = Vec::new();
                fields.push((text::owned(key), value));
                proof {
                    lemma_fields_view(fields@);
                    assert(fields_view(fields@) =~= seq![(key@, value@)]);
                }
                *self = Json::Object(fields);
            },
        }
    }

    /// An object with these fields, in order.
    pub fn object(fields: Vec<(String, Json)>) -> (r: Json)
        ensures
            r@ == JsonView::Object(fields_view(fields@)),
    {
        Json::Object(fields)
    }

    /// An array with these elements, in order.
    pub fn array(items: Vec<Json>) -> (r: Json)
        ensures
            r@ == JsonView::Array(items_view(items@)),
    {
        Json::Array(items)
    }

    /// A text value holding a copy of `s`.
    pub fn from_str_slice(s: &str) -> (r: Json)
        ensures
            r@ == JsonView::Text(s@),
    {
        Json::Text(text::owned(s))
    }
}

} // verus!
