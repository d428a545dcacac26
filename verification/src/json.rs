//! A plain model of the provider's JSON payloads. Numbers keep their
//! decimal text (`Num("191.25")`), so payload logic stays over plain
//! values; the shell converts its parsed JSON into this shape one node
//! for one node before handing it to the library.
//!
//! Object lookup takes the first entry with the key.

use vstd::prelude::*;

use crate::models::Price;
use crate::numbers::{parse_price_text, price_of_text};

verus! {

/// One JSON document node.
#[derive(Debug)]
pub enum JsonValue {
    Null,
    Bool(bool),
    /// A number, kept as its decimal text.
    Num(String),
    Str(String),
    Arr(Vec<JsonValue>),
    Obj(Vec<JsonMember>),
}

/// One `key: value` entry of a JSON object.
#[derive(Debug)]
pub struct JsonMember {
    pub key: String,
    pub value: JsonValue,
}

/// First value under `key` in an entry list.
pub open spec fn spec_lookup(entries: Seq<JsonMember>, key: Seq<char>) -> Option<JsonValue>
    decreases entries.len(),
{
    if entries.len() == 0 {
        None
    } else if entries[0].key@ == key {
        Some(entries[0].value)
    } else {
        spec_lookup(entries.drop_first(), key)
    }
}

/// The field `key` of object `v`, if `v` is an object carrying it.
pub open spec fn json_get(v: JsonValue, key: Seq<char>) -> Option<JsonValue> {
    match v {
        JsonValue::Obj(entries) => spec_lookup(entries@, key),
        _ => None,
    }
}

/// The string content of field `key`, if present and a string.
pub open spec fn json_str_field(v: JsonValue, key: Seq<char>) -> Option<Seq<char>> {
    match json_get(v, key) {
        Some(w) => match w {
            JsonValue::Str(s) => Some(s@),
            _ => None,
        },
        None => None,
    }
}

/// The fixed-point value a node denotes: a number, or a numeric string.
pub open spec fn json_price_of(v: JsonValue) -> Option<int> {
    match v {
        JsonValue::Num(t) => price_of_text(t@),
        JsonValue::Str(t) => price_of_text(t@),
        _ => None,
    }
}

/// The fixed-point value of field `key`, if present and numeric.
pub open spec fn json_price_field(v: JsonValue, key: Seq<char>) -> Option<int> {
    match json_get(v, key) {
        Some(w) => json_price_of(w),
        None => None,
    }
}

/// Character-for-character string equality.
pub fn str_eq(a: &str, b: &str) -> (r: bool)
    ensures
        r == (a@ == b@),
{
    let n = a.unicode_len();
    let m = b.unicode_len();
    if n != m {
        return false;
    }
    let mut i: usize = 0;
    while i < n
        invariant
            0 <= i <= n,
            n == a@.len(),
            n == b@.len(),
            forall|j: int| 0 <= j < i ==> a@[j] == b@[j],
        decreases n - i,
    {
        if a.get_char(i) != b.get_char(i) {
            return false;
        }
        i = i + 1;
    }
    proof {
        assert(a@ =~= b@);
    }
    true
}

proof fn lemma_spec_lookup_at(entries: Seq<JsonMember>, key: Seq<char>, i: int)
    requires
        0 <= i <= entries.len(),
        forall|j: int| 0 <= j < i ==> (#[trigger] entries[j]).key@ != key,
        i < entries.len() ==> entries[i].key@ == key,
    ensures
        spec_lookup(entries, key) == (if i < entries.len() {
            Some(entries[i].value)
        } else {
            None::<JsonValue>
        }),
    decreases i,
{
    if i == 0 {
    } else {
        let t = entries.drop_first();
        assert(forall|j: int| 0 <= j < i - 1 ==> (#[trigger] t[j]).key@ != key);
        lemma_spec_lookup_at(t, key, i - 1);
    }
}

impl JsonValue {
    /// Looks the field `key` up, if this node is an object carrying it.
    pub fn get<'a>(&'a self, key: &str) -> (r: Option<&'a JsonValue>)
        ensures
            match r {
                Some(w) => json_get(*self, key@) == Some(*w),
                None => json_get(*self, key@) is None,
            },
    {
        match self {
            JsonValue::Obj(entries) => {
                let mut i: usize = 0;
                while i < entries.len()
                    invariant
                        0 <= i <= entries@.len(),
                        *self == JsonValue::Obj(*entries),
                        forall|j: int| 0 <= j < i ==> (#[trigger] entries@[j]).key@ != key@,
                    decreases entries@.len() - i,
                {
                    if str_eq(entries[i].key.as_str(), key) {
                        proof {
                            lemma_spec_lookup_at(entries@, key@, i as int);
                        }
                        return Some(&entries[i].value);
                    }
                    i = i + 1;
                }
                proof {
                    lemma_spec_lookup_at(entries@, key@, entries@.len() as int);
                }
                None
            },
            _ => None,
        }
    }

    /// The fixed-point value this node denotes, if any.
    pub fn price_value(&self) -> (r: Option<Price>)
        ensures
            match r {
                Some(p) => json_price_of(*self) == Some(p@),
                None => json_price_of(*self) is None,
            },
    {
        match self {
            JsonValue::Num(t) => parse_price_text(t.as_str()),
            JsonValue::Str(t) => parse_price_text(t.as_str()),
            _ => None,
        }
    }

    /// The fixed-point value of field `key`, if present and numeric.
    pub fn price_field(&self, key: &str) -> (r: Option<Price>)
        ensures
            match r {
                Some(p) => json_price_field(*self, key@) == Some(p@),
                None => json_price_field(*self, key@) is None,
            },
    {
        match self.get(key) {
            Some(w) => w.price_value(),
            None => None,
        }
    }

    /// The string content of field `key`, copied, if present and a string.
    pub fn str_field(&self, key: &str) -> (r: Option<String>)
        ensures
            match r {
                Some(s) => json_str_field(*self, key@) == Some(s@),
                None => json_str_field(*self, key@) is None,
            },
    {
        match self.get(key) {
            Some(JsonValue::Str(s)) => Some(s.clone()),
            _ => None,
        }
    }
}

} // verus!
