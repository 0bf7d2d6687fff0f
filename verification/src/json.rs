use vstd::prelude::*;

verus! {

/// A JSON document, as the configuration grammar sees it. Numbers that fit
/// a signed 64-bit integer are held exactly; any other number (a float or
/// a larger integer) is `BigNum`, which no configuration field accepts.
#[derive(Debug, PartialEq)]
pub enum Json {
    Null,
    Bool(bool),
    Int(i64),
    BigNum,
    Str(String),
    Arr(Vec<Json>),
    Obj(Vec<(String, Json)>),
}

/// The value under the first entry with this key, if the entries hold one.
pub open spec fn lookup_entries(entries: Seq<(String, Json)>, key: Seq<char>) -> Option<Json>
    decreases entries.len(),
{
    if entries.len() == 0 {
        None
    } else if entries[0].0@ == key {
        Some(entries[0].1)
    } else {
        lookup_entries(entries.skip(1), key)
    }
}

/// The value under `key`, where `j` is an object that has it.
pub open spec fn spec_get(j: Json, key: Seq<char>) -> Option<Json> {
    match j {
        Json::Obj(es) => lookup_entries(es@, key),
        _ => None,
    }
}

/// String equality by contents.
pub fn str_eq(a: &str, b: &str) -> (r: bool)
    ensures
        r == (a@ == b@),
{
    let x = a.to_owned();
    let y = b.to_owned();
    x == y
}

impl Json {
    /// Looks a key up in an object; `None` on other documents.
    #[verifier::loop_isolation(false)]
    pub fn get<'a>(&'a self, key: &str) -> (r: Option<&'a Json>)
        ensures
            match r {
                Some(v) => spec_get(*self, key@) == Some(*v),
                None => spec_get(*self, key@) is None,
            },
    {
        match self {
            Json::Obj(entries) => {
                let n = entries.len();
                let mut i: usize = 0;
                proof {
                    assert(entries@.skip(0) =~= entries@);
                }
                while i < n
                    invariant
                        i <= n,
                        n == entries@.len(),
                        lookup_entries(entries@, key@) == lookup_entries(
                            entries@.skip(i as int),
                            key@,
                        ),
                    decreases n - i,
                {
                    proof {
                        assert(entries@.skip(i as int)[0] == entries@[i as int]);
                        assert(entries@.skip(i as int).skip(1) =~= entries@.skip(i + 1));
                    }
                    if str_eq(entries[i].0.as_str(), key) {
                        proof {
                            assert(lookup_entries(entries@.skip(i as int), key@) == Some(
                                entries@[i as int].1,
                            ));

                        }
                        return Some(&entries[i].1);
                    }
                    i = i + 1;
                }
                proof {
                    assert(entries@.skip(n as int) =~= Seq::<(String, Json)>::empty());
                }
                None
            },
            _ => None,
        }
    }
}

/// What parsing the bytes as JSON gives: a function of the bytes alone
/// (`None` where they are not valid JSON).
pub uninterp spec fn json_of(bytes: Seq<u8>) -> Option<Json>;

/// Relies on `serde_json::from_slice` parsing into `serde_json::Value`:
/// deterministic in the input bytes; the conversion to `Json` below maps
/// its variants one for one.
#[verifier::external_body]
pub(crate) fn parse_json(bytes: &[u8]) -> (r: Option<Json>)
    ensures
        r == json_of(bytes@),
{
    match serde_json::from_slice::<serde_json::Value>(bytes) {
        Ok(v) => Some(json_from_value(&v)),
        Err(_) => None,
    }
}

/// The parsed document type of `serde_json`, opaque to the library.
#[verifier::external_type_specification]
#[verifier::external_body]
pub struct ExSerdeValue(serde_json::Value);

/// Relies on `serde_json::Value` and `Number::as_i64`: converts each
/// variant of the parsed document one for one.
#[verifier::external_body]
fn json_from_value(v: &serde_json::Value) -> Json {
    match v {
        serde_json::Value::Null => Json::Null,
        serde_json::Value::Bool(b) => Json::Bool(*b),
        serde_json::Value::Number(n) => match n.as_i64() {
            Some(i) => Json::Int(i),
            None => Json::BigNum,
        },
        serde_json::Value::String(s) => Json::Str(s.clone()),
        serde_json::Value::Array(a) => Json::Arr(a.iter().map(json_from_value).collect()),
        serde_json::Value::Object(o) => Json::Obj(
            o.iter().map(|(k, m)| (k.clone(), json_from_value(m))).collect(),
        ),
    }
}

} // verus!
