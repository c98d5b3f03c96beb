//! A JSON document model: the payloads the alert sinks post.
use vstd::prelude::*;

verus! {

/// A JSON value.
#[derive(Debug)]
pub enum JsonValue {
    Null,
    Bool(bool),
    Number(u64),
    String(String),
    Array(Vec<JsonValue>),
    Object(Vec<(String, JsonValue)>),
}

/// The mathematical JSON value: strings as character sequences.
pub enum Json {
    Null,
    Bool(bool),
    Number(nat),
    Str(Seq<char>),
    Arr(Seq<Json>),
    Obj(Seq<(Seq<char>, Json)>),
}

impl JsonValue {
    /// The JSON value this value denotes.
    pub open spec fn json(&self) -> Json
        decreases self,
    {
        match self {
            JsonValue::Null => Json::Null,
            JsonValue::Bool(b) => Json::Bool(*b),
            JsonValue::Number(n) => Json::Number(*n as nat),
            JsonValue::String(s) => Json::Str(s@),
            JsonValue::Array(v) => Json::Arr(
                Seq::new(
                    v@.len(),
                    |i: int|
                        if 0 <= i < v@.len() {
                            proof {
                                assert(decreases_to!(self => v@[i]));
                            }
                            v@[i].json()
                        } else {
                            Json::Null
                        },
                ),
            ),
            JsonValue::Object(v) => Json::Obj(
                Seq::new(
                    v@.len(),
                    |i: int|
                        if 0 <= i < v@.len() {
                            proof {
                                assert(decreases_to!(self => v@[i].1));
                            }
                            (v@[i].0@, v@[i].1.json())
                        } else {
                            (Seq::empty(), Json::Null)
                        },
                ),
            ),
        }
    }
}


/// The JSON values of a sequence of values.
pub open spec fn jsons(v: Seq<JsonValue>) -> Seq<Json> {
    v.map_values(|x: JsonValue| x.json())
}

/// The JSON members of a sequence of fields.
pub open spec fn members(v: Seq<(String, JsonValue)>) -> Seq<(Seq<char>, Json)> {
    v.map_values(|f: (String, JsonValue)| (f.0@, f.1.json()))
}

/// The value of the first member named `key`, if any.
pub open spec fn member(fields: Seq<(Seq<char>, Json)>, key: Seq<char>) -> Option<Json>
    decreases fields.len(),
{
    if fields.len() == 0 {
        None
    } else if fields[0].0 == key {
        Some(fields[0].1)
    } else {
        member(fields.drop_first(), key)
    }
}

/// In an object, the member named by the key at position `i`, when no earlier member has that
/// key, is the value at `i`.
pub proof fn lemma_member_at(fields: Seq<(Seq<char>, Json)>, i: int)
    requires
        0 <= i < fields.len(),
        forall|j: int| 0 <= j < i ==> #[trigger] fields[j].0 != fields[i].0,
    ensures
        member(fields, fields[i].0) == Some(fields[i].1),
    decreases i,
{
    if i > 0 {
        let rest = fields.drop_first();
        assert forall|j: int| 0 <= j < i - 1 implies #[trigger] rest[j].0 != rest[i - 1].0 by {
            assert(rest[j] == fields[j + 1]);
        }
        lemma_member_at(rest, i - 1);
        assert(rest[i - 1] == fields[i]);
    }
}

/// A member lookup finds the first member with the key, and nothing when no member has it.
pub proof fn lemma_member_first(fields: Seq<(Seq<char>, Json)>, key: Seq<char>)
    ensures
        (forall|j: int| 0 <= j < fields.len() ==> #[trigger] fields[j].0 != key) ==> member(fields, key) is None,
        forall|i: int| 0 <= i < fields.len() && fields[i].0 == key && (forall|j: int| 0 <= j < i ==> #[trigger] fields[j].0 != key)
            ==> member(fields, key) == Some(#[trigger] fields[i].1),
    decreases fields.len(),
{
    if fields.len() > 0 {
        let rest = fields.drop_first();
        lemma_member_first(rest, key);
        if forall|j: int| 0 <= j < fields.len() ==> #[trigger] fields[j].0 != key {
            assert(fields[0].0 != key);
            assert forall|j: int| 0 <= j < rest.len() implies #[trigger] rest[j].0 != key by {
                assert(rest[j] == fields[j + 1]);
            }
        }
        assert forall|i: int| 0 <= i < fields.len() && fields[i].0 == key && (forall|j: int| 0 <= j < i ==> #[trigger] fields[j].0
            != key) implies member(fields, key) == Some(#[trigger] fields[i].1) by {
            if i > 0 {
                assert(fields[0].0 != key);
                assert(rest[i - 1] == fields[i]);
                assert forall|j: int| 0 <= j < i - 1 implies #[trigger] rest[j].0 != key by {
                    assert(rest[j] == fields[j + 1]);
                }
            }
        }
    }
}

impl JsonValue {
    /// A JSON string.
    pub fn from_str(s: &str) -> (j: JsonValue)
        ensures
            j.json() == Json::Str(s@),
    {
        JsonValue::String(String::from_str(s))
    }

    /// A JSON string.
    pub fn from_string(s: String) -> (j: JsonValue)
        ensures
            j.json() == Json::Str(s@),
    {
        JsonValue::String(s)
    }

    /// A JSON number.
    pub fn from_u64(n: u64) -> (j: JsonValue)
        ensures
            j.json() == Json::Number(n as nat),
    {
        JsonValue::Number(n)
    }

    /// A JSON array of the given items.
    pub fn array(items: Vec<JsonValue>) -> (j: JsonValue)
        ensures
            j.json() == Json::Arr(jsons(items@)),
    {
        let j = JsonValue::Array(items);
        proof {
            if let Json::Arr(a) = j.json() {
                assert(a =~= jsons(items@));
            }
        }
        j
    }

    /// A JSON object with the given members, in order.
    pub fn object(fields: Vec<(String, JsonValue)>) -> (j: JsonValue)
        ensures
            j.json() == Json::Obj(members(fields@)),
    {
        let j = JsonValue::Object(fields);
        proof {
            if let Json::Obj(a) = j.json() {
                assert(a =~= members(fields@));
            }
        }
        j
    }

    /// The value of the first member named `key` of an object.
    pub fn get(&self, key: &str) -> (r: Option<&JsonValue>)
        ensures
            match self.json() {
                Json::Obj(fields) => match (r, member(fields, key@)) {
                    (Some(v), Some(w)) => v.json() == w,
                    (None, None) => true,
                    _ => false,
                },
                _ => r is None,
            },
    {
        match self {
            JsonValue::Object(fields) => {
                let ghost ms = members(fields@);
                proof {
                    if let Json::Obj(a) = self.json() {
                        assert(a =~= ms);
                    }
                    assert(ms.skip(0) == ms);
                }
                let mut i: usize = 0;
                while i < fields.len()
                    invariant
                        self.json() == Json::Obj(ms),
                        ms == members(fields@),
                        0 <= i <= fields@.len(),
                        member(ms, key@) == member(ms.skip(i as int), key@),
                    decreases fields@.len() - i,
                {
                    proof {
                        assert(ms.skip(i as int)[0] == ms[i as int]);
                        assert(ms.skip(i as int).drop_first() == ms.skip(i + 1));
                    }
                    if crate::text::str_eq(fields[i].0.as_str(), key) {
                        return Some(&fields[i].1);
                    }
                    i = i + 1;
                }
                None
            },
            _ => None,
        }
    }

    /// The string, if this is a JSON string.
    pub fn as_str(&self) -> (r: Option<&str>)
        ensures
            match self.json() {
                Json::Str(s) => r matches Some(t) && t@ == s,
                _ => r is None,
            },
    {
        match self {
            JsonValue::String(s) => Some(s.as_str()),
            _ => None,
        }
    }

    /// The number, if this is a JSON number.
    pub fn as_u64(&self) -> (r: Option<u64>)
        ensures
            match self.json() {
                Json::Number(n) => r matches Some(m) && m == n,
                _ => r is None,
            },
    {
        match self {
            JsonValue::Number(n) => Some(*n),
            _ => None,
        }
    }

    /// The items, if this is a JSON array.
    pub fn as_array(&self) -> (r: Option<&Vec<JsonValue>>)
        ensures
            match self.json() {
                Json::Arr(items) => r matches Some(v) && jsons(v@) == items,
                _ => r is None,
            },
    {
        match self {
            JsonValue::Array(v) => {
                proof {
                    if let Json::Arr(a) = self.json() {
                        assert(a =~= jsons(v@));
                    }
                }
                Some(v)
            },
            _ => None,
        }
    }
}

/// A member of an object.
pub fn entry(key: &str, value: JsonValue) -> (f: (String, JsonValue))
    ensures
        f.0@ == key@,
        f.1 == value,
{
    (String::from_str(key), value)
}

/// An object of one member.
pub fn object1(k1: &str, v1: JsonValue) -> (j: JsonValue)
    ensures
        j.json() == Json::Obj(seq![(k1@, v1.json())]),
{
    let mut f: Vec<(String, JsonValue)> = Vec::new();
    f.push(entry(k1, v1));
    let j = JsonValue::object(f);
    assert(members(f@) =~= seq![(k1@, v1.json())]);
    j
}

/// An object of two members.
pub fn object2(k1: &str, v1: JsonValue, k2: &str, v2: JsonValue) -> (j: JsonValue)
    ensures
        j.json() == Json::Obj(seq![(k1@, v1.json()), (k2@, v2.json())]),
{
    let ghost (j1, j2) = (v1.json(), v2.json());
    let mut f: Vec<(String, JsonValue)> = Vec::new();
    f.push(entry(k1, v1));
    f.push(entry(k2, v2));
    let j = JsonValue::object(f);
    assert(members(f@) =~= seq![(k1@, j1), (k2@, j2)]);
    j
}


/// An object of four members.
pub fn object4(k1: &str, v1: JsonValue, k2: &str, v2: JsonValue, k3: &str, v3: JsonValue, k4: &str, v4: JsonValue) -> (j: JsonValue)
    ensures
        j.json() == Json::Obj(seq![(k1@, v1.json()), (k2@, v2.json()), (k3@, v3.json()), (k4@, v4.json())]),
{
    let ghost (j1, j2, j3, j4) = (v1.json(), v2.json(), v3.json(), v4.json());
    let mut f: Vec<(String, JsonValue)> = Vec::new();
    f.push(entry(k1, v1));
    f.push(entry(k2, v2));
    f.push(entry(k3, v3));
    f.push(entry(k4, v4));
    let j = JsonValue::object(f);
    assert(members(f@) =~= seq![(k1@, j1), (k2@, j2), (k3@, j3), (k4@, j4)]);
    j
}

/// An object of six members.
pub fn object6(
    k1: &str,
    v1: JsonValue,
    k2: &str,
    v2: JsonValue,
    k3: &str,
    v3: JsonValue,
    k4: &str,
    v4: JsonValue,
    k5: &str,
    v5: JsonValue,
    k6: &str,
    v6: JsonValue,
) -> (j: JsonValue)
    ensures
        j.json() == Json::Obj(
            seq![(k1@, v1.json()), (k2@, v2.json()), (k3@, v3.json()), (k4@, v4.json()), (k5@, v5.json()), (k6@, v6.json())],
        ),
{
    let ghost (j1, j2, j3, j4, j5, j6) = (v1.json(), v2.json(), v3.json(), v4.json(), v5.json(), v6.json());
    let mut f: Vec<(String, JsonValue)> = Vec::new();
    f.push(entry(k1, v1));
    f.push(entry(k2, v2));
    f.push(entry(k3, v3));
    f.push(entry(k4, v4));
    f.push(entry(k5, v5));
    f.push(entry(k6, v6));
    let j = JsonValue::object(f);
    assert(members(f@) =~= seq![(k1@, j1), (k2@, j2), (k3@, j3), (k4@, j4), (k5@, j5), (k6@, j6)]);
    j
}


/// An object of five members.
pub fn object5(
    k1: &str,
    v1: JsonValue,
    k2: &str,
    v2: JsonValue,
    k3: &str,
    v3: JsonValue,
    k4: &str,
    v4: JsonValue,
    k5: &str,
    v5: JsonValue,
) -> (j: JsonValue)
    ensures
        j.json() == Json::Obj(seq![(k1@, v1.json()), (k2@, v2.json()), (k3@, v3.json()), (k4@, v4.json()), (k5@, v5.json())]),
{
    let ghost (j1, j2, j3, j4, j5) = (v1.json(), v2.json(), v3.json(), v4.json(), v5.json());
    let mut f: Vec<(String, JsonValue)> = Vec::new();
    f.push(entry(k1, v1));
    f.push(entry(k2, v2));
    f.push(entry(k3, v3));
    f.push(entry(k4, v4));
    f.push(entry(k5, v5));
    let j = JsonValue::object(f);
    assert(members(f@) =~= seq![(k1@, j1), (k2@, j2), (k3@, j3), (k4@, j4), (k5@, j5)]);
    j
}

} // verus!
