//! JSON documents as plain values.

use crate::text::str_eq;
use vstd::prelude::*;

verus! {

/// A JSON number, kept as it was read: nothing is computed with it.
#[derive(Clone, Copy, Debug, PartialEq, Eq, Structural)]
pub enum Number {
    /// An integer that fits `i64`.
    Int(i64),
    /// An integer above `i64::MAX`.
    Big(u64),
    /// Any other number, by its IEEE-754 bits.
    Real(u64),
    /// A decimal with two places, by its hundredths.
    Hundredths(i64),
}

/// A JSON document.
#[derive(Debug)]
pub enum Json {
    Null,
    Bool(bool),
    Num(Number),
    Str(String),
    Array(Vec<Json>),
    /// The members, in order. Of two members with one name the first counts.
    Object(Vec<(String, Json)>),
}

/// What a document says.
pub enum JsonModel {
    Null,
    Bool(bool),
    Num(Number),
    Str(Seq<char>),
    Array(Seq<JsonModel>),
    Object(Seq<(Seq<char>, JsonModel)>),
}

/// The value of the first member named `key`.
pub open spec fn member(s: Seq<(Seq<char>, JsonModel)>, key: Seq<char>) -> Option<JsonModel>
    decreases s.len(),
{
    if s.len() == 0 {
        None
    } else if s[0].0 == key {
        Some(s[0].1)
    } else {
        member(s.drop_first(), key)
    }
}

impl JsonModel {
    /// The member `key` of an object.
    pub open spec fn get(self, key: Seq<char>) -> Option<JsonModel> {
        match self {
            JsonModel::Object(s) => member(s, key),
            _ => None,
        }
    }

    pub open spec fn as_str(self) -> Option<Seq<char>> {
        match self {
            JsonModel::Str(s) => Some(s),
            _ => None,
        }
    }

    pub open spec fn as_array(self) -> Option<Seq<JsonModel>> {
        match self {
            JsonModel::Array(s) => Some(s),
            _ => None,
        }
    }

    pub open spec fn as_i64(self) -> Option<i64> {
        match self {
            JsonModel::Num(Number::Int(n)) => Some(n),
            _ => None,
        }
    }

    pub open spec fn as_bool(self) -> Option<bool> {
        match self {
            JsonModel::Bool(b) => Some(b),
            _ => None,
        }
    }

    /// The member `key`, where it is a string.
    pub open spec fn str_at(self, key: Seq<char>) -> Option<Seq<char>> {
        match self.get(key) {
            Some(v) => v.as_str(),
            None => None,
        }
    }

    /// The elements of the member `key`; none where it is missing or no array.
    pub open spec fn list_at(self, key: Seq<char>) -> Seq<JsonModel> {
        match self.get(key) {
            Some(JsonModel::Array(s)) => s,
            _ => Seq::empty(),
        }
    }

    /// The member `key`, where it is an integer.
    pub open spec fn i64_at(self, key: Seq<char>) -> Option<i64> {
        match self.get(key) {
            Some(v) => v.as_i64(),
            None => None,
        }
    }
}

impl Json {
    pub open spec fn model(&self) -> JsonModel
        decreases self,
    {
        match self {
            Json::Null => JsonModel::Null,
            Json::Bool(b) => JsonModel::Bool(*b),
            Json::Num(n) => JsonModel::Num(*n),
            Json::Str(s) => JsonModel::Str(s@),
            Json::Array(v) => JsonModel::Array(
                Seq::new(
                    v@.len(),
                    |i: int|
                        if 0 <= i < v@.len() {
                            v@[i].model()
                        } else {
                            JsonModel::Null
                        },
                ),
            ),
            Json::Object(v) => JsonModel::Object(
                Seq::new(
                    v@.len(),
                    |i: int|
                        if 0 <= i < v@.len() {
                            (v@[i].0@, v@[i].1.model())
                        } else {
                            (Seq::empty(), JsonModel::Null)
                        },
                ),
            ),
        }
    }
}

impl View for Json {
    type V = JsonModel;

    open spec fn view(&self) -> JsonModel {
        self.model()
    }
}

/// What the elements of an array say.
pub open spec fn elements(s: Seq<Json>) -> Seq<JsonModel> {
    Seq::new(s.len(), |i: int| s[i]@)
}

/// What the members of an object say.
pub open spec fn members(s: Seq<(String, Json)>) -> Seq<(Seq<char>, JsonModel)> {
    Seq::new(s.len(), |i: int| (s[i].0@, s[i].1@))
}

/// A member of an object under construction.
pub fn field(name: &str, value: Json) -> (r: (String, Json))
    ensures
        r.0@ == name@,
        r.1@ == value@,
{
    (name.to_string(), value)
}

impl Json {
    /// An object with the given members.
    pub fn object(v: Vec<(String, Json)>) -> (r: Json)
        ensures
            r@ == JsonModel::Object(members(v@)),
    {
        let r = Json::Object(v);
        assert(r@->Object_0 =~= members(v@));
        r
    }

    /// An array with the given elements.
    pub fn array(v: Vec<Json>) -> (r: Json)
        ensures
            r@ == JsonModel::Array(elements(v@)),
    {
        let r = Json::Array(v);
        assert(r@->Array_0 =~= elements(v@));
        r
    }

    /// A string.
    pub fn text(s: &str) -> (r: Json)
        ensures
            r@ == JsonModel::Str(s@),
    {
        Json::Str(s.to_string())
    }

    /// An integer.
    pub fn integer(n: i64) -> (r: Json)
        ensures
            r@ == JsonModel::Num(Number::Int(n)),
    {
        Json::Num(Number::Int(n))
    }

    /// A decimal with two places, by its hundredths.
    pub fn hundredths(n: i64) -> (r: Json)
        ensures
            r@ == JsonModel::Num(Number::Hundredths(n)),
    {
        Json::Num(Number::Hundredths(n))
    }

    /// A truth value.
    pub fn boolean(b: bool) -> (r: Json)
        ensures
            r@ == JsonModel::Bool(b),
    {
        Json::Bool(b)
    }

    /// A copy of the document.
    pub fn copy(&self) -> (r: Json)
        ensures
            r@ == self@,
        decreases self,
    {
        match self {
            Json::Null => Json::Null,
            Json::Bool(b) => Json::Bool(*b),
            Json::Num(n) => Json::Num(*n),
            Json::Str(s) => Json::Str(s.clone()),
            Json::Array(v) => {
                let mut out: Vec<Json> = Vec::new();
                let mut i: usize = 0;
                while i < v.len()
                    invariant
                        i <= v.len(),
                        out@.len() == i,
                        *self == Json::Array(*v),
                        forall|k: int| 0 <= k < i ==> (#[trigger] out@[k])@ == v@[k]@,
                    decreases v.len() - i,
                {
                    assert(decreases_to!(self->Array_0@ => self->Array_0@[i as int]));
                    assert(decreases_to!(*self => self->Array_0@[i as int]));
                    out.push(v[i].copy());
                    i += 1;
                }
                let r = Json::array(out);
                assert(elements(out@) =~= elements(v@));
                assert(self@->Array_0 =~= elements(v@));
                r
            },
            Json::Object(v) => {
                let mut out: Vec<(String, Json)> = Vec::new();
                let mut i: usize = 0;
                while i < v.len()
                    invariant
                        i <= v.len(),
                        out@.len() == i,
                        *self == Json::Object(*v),
                        forall|k: int|
                            0 <= k < i ==> (#[trigger] out@[k]).0@ == v@[k].0@ && out@[k].1@
                                == v@[k].1@,
                    decreases v.len() - i,
                {
                    assert(decreases_to!(self->Object_0@ => self->Object_0@[i as int].1));
                    assert(decreases_to!(*self => self->Object_0@[i as int].1));
                    out.push((v[i].0.clone(), v[i].1.copy()));
                    i += 1;
                }
                let r = Json::object(out);
                assert(members(out@) =~= members(v@));
                assert(self@->Object_0 =~= members(v@));
                r
            },
        }
    }

    /// The member `key` of an object.
    pub fn get(&self, key: &str) -> (r: Option<&Json>)
        ensures
            match r {
                Some(v) => self@.get(key@) == Some(v@),
                None => self@.get(key@) is None,
            },
    {
        match self {
            Json::Object(v) => {
                let ghost all = self@->Object_0;
                let mut i: usize = 0;
                assert(all.skip(0) == all);
                while i < v.len()
                    invariant
                        i <= v@.len(),
                        *self == Json::Object(*v),
                        all == self@->Object_0,
                        member(all, key@) == member(all.skip(i as int), key@),
                    decreases v@.len() - i,
                {
                    assert(all[i as int] == (v@[i as int].0@, v@[i as int].1@));
                    if str_eq(v[i].0.as_str(), key) {
                        return Some(&v[i].1);
                    }
                    assert(all.skip(i as int).drop_first() == all.skip(i + 1));
                    i += 1;
                }
                None
            },
            _ => None,
        }
    }

    /// The string that the document is.
    pub fn as_str(&self) -> (r: Option<&String>)
        ensures
            match r {
                Some(s) => self@.as_str() == Some(s@),
                None => self@.as_str() is None,
            },
    {
        match self {
            Json::Str(s) => Some(s),
            _ => None,
        }
    }

    /// The elements of the array that the document is.
    pub fn as_array(&self) -> (r: Option<&Vec<Json>>)
        ensures
            match r {
                Some(v) => self@.as_array() == Some(elements(v@)),
                None => self@.as_array() is None,
            },
    {
        match self {
            Json::Array(v) => {
                assert(self@->Array_0 =~= elements(v@));
                Some(v)
            },
            _ => None,
        }
    }

    /// The integer that the document is.
    pub fn as_i64(&self) -> (r: Option<i64>)
        ensures
            r == self@.as_i64(),
    {
        match self {
            Json::Num(Number::Int(n)) => Some(*n),
            _ => None,
        }
    }

    /// The truth value that the document is.
    pub fn as_bool(&self) -> (r: Option<bool>)
        ensures
            r == self@.as_bool(),
    {
        match self {
            Json::Bool(b) => Some(*b),
            _ => None,
        }
    }

    /// The member `key`, where it is a string.
    pub fn str_at(&self, key: &str) -> (r: Option<&String>)
        ensures
            match r {
                Some(s) => self@.str_at(key@) == Some(s@),
                None => self@.str_at(key@) is None,
            },
    {
        match self.get(key) {
            Some(v) => v.as_str(),
            None => None,
        }
    }

    /// The elements of the member `key`, where it is an array.
    pub fn list_at(&self, key: &str) -> (r: Option<&Vec<Json>>)
        ensures
            match r {
                Some(v) => self@.list_at(key@) == elements(v@),
                None => self@.list_at(key@) == Seq::<JsonModel>::empty(),
            },
    {
        match self.get(key) {
            Some(v) => v.as_array(),
            None => None,
        }
    }

    /// The member `key`, where it is an integer.
    pub fn i64_at(&self, key: &str) -> (r: Option<i64>)
        ensures
            r == self@.i64_at(key@),
    {
        match self.get(key) {
            Some(v) => v.as_i64(),
            None => None,
        }
    }
}

// ---------------------------------------------------------------- laws

/// Of the members with one name, the first is the one that is found.
pub proof fn lemma_member(s: Seq<(Seq<char>, JsonModel)>, i: int)
    requires
        0 <= i < s.len(),
        forall|j: int| 0 <= j < i ==> (#[trigger] s[j]).0 != s[i].0,
    ensures
        member(s, s[i].0) == Some(s[i].1),
        JsonModel::Object(s).get(s[i].0) == Some(s[i].1),
    decreases i,
{
    if i > 0 {
        let t = s.drop_first();
        assert forall|j: int| 0 <= j < i - 1 implies (#[trigger] t[j]).0 != s[i].0 by {
            assert(t[j] == s[j + 1]);
        }
        assert(s[0].0 != s[i].0);
        lemma_member(t, i - 1);
    }
}

/// A name that no member has is not found, and what is not an object has no members.
pub proof fn lemma_no_member(v: JsonModel, key: Seq<char>)
    requires
        v matches JsonModel::Object(s) ==> forall|j: int| 0 <= j < s.len() ==> (#[trigger] s[j]).0 != key,
    ensures
        v.get(key) is None,
        v.str_at(key) is None,
        v.i64_at(key) is None,
        v.list_at(key).len() == 0,
    decreases v,
{
    if v is Object {
        lemma_absent(v->Object_0, key);
    }
}

proof fn lemma_absent(s: Seq<(Seq<char>, JsonModel)>, key: Seq<char>)
    requires
        forall|j: int| 0 <= j < s.len() ==> (#[trigger] s[j]).0 != key,
    ensures
        member(s, key) is None,
    decreases s.len(),
{
    if s.len() > 0 {
        assert(s[0].0 != key);
        let t = s.drop_first();
        assert forall|j: int| 0 <= j < t.len() implies (#[trigger] t[j]).0 != key by {
            assert(t[j] == s[j + 1]);
        }
        lemma_absent(t, key);
    }
}

/// A member is read as what it is: a text as a text, a list as a list, a whole number as that
/// number; as anything else it is not there.
pub proof fn lemma_read_as_written(v: JsonModel, key: Seq<char>, x: JsonModel)
    requires
        v.get(key) == Some(x),
    ensures
        v.str_at(key) == (match x {
            JsonModel::Str(s) => Some(s),
            _ => None,
        }),
        v.i64_at(key) == (match x {
            JsonModel::Num(Number::Int(n)) => Some(n),
            _ => None,
        }),
        v.list_at(key) == (match x {
            JsonModel::Array(s) => s,
            _ => Seq::empty(),
        }),
        x.as_bool() == (match x {
            JsonModel::Bool(b) => Some(b),
            _ => None,
        }),
{
}

/// A document says what it holds: each text, number, list and member as it is, in order.
pub proof fn lemma_says_what_it_holds(
    b: bool,
    n: Number,
    s: String,
    v: Vec<Json>,
    m: Vec<(String, Json)>,
)
    ensures
        Json::Null@ == JsonModel::Null,
        Json::Bool(b)@ == JsonModel::Bool(b),
        Json::Num(n)@ == JsonModel::Num(n),
        Json::Str(s)@ == JsonModel::Str(s@),
        Json::Array(v)@ is Array && Json::Array(v)@->Array_0.len() == v@.len(),
        forall|i: int|
            #![trigger Json::Array(v)@->Array_0[i]]
            0 <= i < v@.len() ==> Json::Array(v)@->Array_0[i] == v@[i]@,
        Json::Object(m)@ is Object && Json::Object(m)@->Object_0.len() == m@.len(),
        forall|i: int|
            #![trigger Json::Object(m)@->Object_0[i]]
            0 <= i < m@.len() ==> Json::Object(m)@->Object_0[i] == (m@[i].0@, m@[i].1@),
        elements(v@).len() == v@.len(),
        forall|i: int|
            #![trigger elements(v@)[i]]
            0 <= i < v@.len() ==> elements(v@)[i] == v@[i]@,
        members(m@).len() == m@.len(),
        forall|i: int|
            #![trigger members(m@)[i]]
            0 <= i < m@.len() ==> members(m@)[i] == (m@[i].0@, m@[i].1@),
{
    reveal_with_fuel(Json::model, 2);
}

}
