use vstd::prelude::*;

verus! {

/// A JSON value, as `serde_json::Value` holds it. Numbers keep their text.
#[derive(Debug)]
pub enum Json {
    Null,
    Bool(bool),
    Number(String),
    String(String),
    Array(Vec<Json>),
    Object(Vec<(String, Json)>),
}

/// The value stored under `key` among `entries`, the first such one.
pub open spec fn field(entries: Seq<(String, Json)>, key: Seq<char>) -> Option<Json>
    decreases entries.len(),
{
    if entries.len() == 0 {
        None
    } else if entries[0].0@ == key {
        Some(entries[0].1)
    } else {
        field(entries.skip(1), key)
    }
}

/// `v[key]` as `serde_json` reads it: the member of an object, `Null` when
/// `v` is no object or has no such member.
pub open spec fn index(v: Json, key: Seq<char>) -> Json {
    match v {
        Json::Object(entries) => match field(entries@, key) {
            Some(x) => x,
            None => Json::Null,
        },
        _ => Json::Null,
    }
}

/// `v.as_str()`.
pub open spec fn as_str(v: Json) -> Option<Seq<char>> {
    match v {
        Json::String(s) => Some(s@),
        _ => None,
    }
}

/// `v.as_array()`.
pub open spec fn as_array(v: Json) -> Option<Seq<Json>> {
    match v {
        Json::Array(items) => Some(items@),
        _ => None,
    }
}

impl Json {
    /// `self[key]`; `None` stands for the `Null` that `serde_json` returns.
    pub fn get(&self, key: &str) -> (r: Option<&Json>)
        ensures
            match r {
                Some(x) => index(*self, key@) == *x,
                None => index(*self, key@) == Json::Null,
            },
    {
        match self {
            Json::Object(entries) => {
                let k = String::from_str(key);
                let n = entries.len();
                let mut i: usize = 0;
                proof {
                    assert(entries@.skip(0) =~= entries@);
                }
                while i < n
                    invariant
                        n == entries@.len(),
                        i <= n,
                        k@ == key@,
                        *self == Json::Object(*entries),
                        field(entries@, key@) == field(entries@.skip(i as int), key@),
                    decreases n - i,
                {
                    proof {
                        assert(entries@.skip(i as int)[0] == entries@[i as int]);
                        assert(entries@.skip(i as int).skip(1) =~= entries@.skip(i + 1));
                    }
                    if entries[i].0 == k {
                        return Some(&entries[i].1);
                    }
                    i = i + 1;
                }
                None
            },
            _ => None,
        }
    }

    /// `self.as_str()`.
    pub fn as_str(&self) -> (r: Option<&String>)
        ensures
            match r {
                Some(s) => as_str(*self) == Some(s@),
                None => as_str(*self) is None,
            },
    {
        match self {
            Json::String(s) => Some(s),
            _ => None,
        }
    }

    /// `self.as_array()`.
    pub fn as_array(&self) -> (r: Option<&Vec<Json>>)
        ensures
            match r {
                Some(a) => as_array(*self) == Some(a@),
                None => as_array(*self) is None,
            },
    {
        match self {
            Json::Array(a) => Some(a),
            _ => None,
        }
    }
}


#[verifier::external_type_specification]
#[verifier::external_body]
pub struct ExJsonValue(serde_json::Value);

/// What `serde_json::from_str` makes of `text` as a `serde_json::Value`,
/// taken into [`Json`] (numbers by their text, object members in the order
/// of the value's map), or the text of its error.
pub uninterp spec fn json_of(text: Seq<char>) -> Result<Json, Seq<char>>;

/// A `serde_json::Value` taken into [`Json`], member by member; only the
/// conversion of [`parse_json`]'s result.
#[verifier::external_body]
fn json_from_value(v: &serde_json::Value) -> Json {
    match v {
        serde_json::Value::Null => Json::Null,
        serde_json::Value::Bool(b) => Json::Bool(*b),
        serde_json::Value::Number(n) => Json::Number(n.to_string()),
        serde_json::Value::String(s) => Json::String(s.clone()),
        serde_json::Value::Array(items) => Json::Array(items.iter().map(json_from_value).collect()),
        serde_json::Value::Object(map) => Json::Object(map.iter().map(|(k, v)| (k.clone(), json_from_value(v))).collect()),
    }
}

/// `serde_json::from_str::<serde_json::Value>`: the JSON value that `text`
/// holds, or the text of the error when it is not JSON. What the parse
/// gives is a function of the text alone, named by [`json_of`].
#[verifier::external_body]
pub(crate) fn parse_json(text: &str) -> (r: Result<Json, String>)
    ensures
        match r {
            Ok(v) => json_of(text@) == Ok::<Json, Seq<char>>(v),
            Err(m) => json_of(text@) == Err::<Json, Seq<char>>(m@),
        },
{
    match serde_json::from_str::<serde_json::Value>(text) {
        Ok(v) => Ok(json_from_value(&v)),
        Err(e) => Err(e.to_string()),
    }
}

} // verus!
