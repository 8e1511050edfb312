//! JWK key material: a claim map carrying the parameters of one key, with
//! the typed accessors the algorithm constructors validate against.
use vstd::prelude::*;

use crate::JoseError;
use crate::header::{entries_wf, keys_unique, spec_str_claim, spec_strarr_claim};
use crate::json::{
    JsonVal, JsonValue, jview, jview_obj, lemma_jview_seq, object_get, parse_json,
    spec_json_parse, spec_object_get,
};

verus! {

broadcast use vstd::seq::group_seq_axioms, vstd::std_specs::vec::group_vec_axioms;

/// A JSON Web Key: a claim map whose `kty` is a string.
#[derive(Debug)]
pub struct Jwk {
    map: Vec<(String, JsonValue)>,
}

impl Jwk {
    /// The parameter entries, as named mathematical values.
    pub closed spec fn entries(&self) -> Seq<(Seq<char>, JsonVal)> {
        jview_obj(self.map@)
    }

    /// Validity: unique names, well-formed values, a string `kty`.
    pub open spec fn wf(&self) -> bool {
        &&& keys_unique(self.entries())
        &&& entries_wf(self.entries())
        &&& spec_str_claim(self.entries(), "kty"@) is Some
    }

    /// Build a key from a parameter map.  Fails exactly when a name
    /// repeats, a value is malformed, or `kty` is not a string.
    pub fn from_map(map: Vec<(String, JsonValue)>) -> (r: Result<Self, JoseError>)
        ensures
            match r {
                Ok(k) => k.entries() == jview_obj(map@) && k.wf(),
                Err(e) => e is InvalidKeyFormat,
            },
            r is Ok <==> (keys_unique(jview_obj(map@)) && entries_wf(jview_obj(map@))
                && spec_str_claim(jview_obj(map@), "kty"@) is Some),
    {
        if !crate::header::check_claim_map(&map) {
            return Err(JoseError::InvalidKeyFormat(String::from_str(
                "a JWK must have unique parameter names and well-formed values",
            )));
        }
        let kty_ok = match object_get(&map, "kty") {
            Some(v) => match v {
                JsonValue::String(_) => true,
                _ => false,
            },
            None => false,
        };
        if !kty_ok {
            return Err(JoseError::InvalidKeyFormat(String::from_str(
                "a JWK requires a string kty parameter",
            )));
        }
        Ok(Jwk { map })
    }

    /// Parse a key from JSON text.
    pub fn from_slice(input: &[u8]) -> (r: Result<Self, JoseError>)
        ensures
            match r {
                Ok(k) => spec_json_parse(input@) == Some(JsonVal::Obj(k.entries())) && k.wf(),
                Err(e) => e is InvalidKeyFormat,
            },
            r is Ok <==> (spec_json_parse(input@) matches Some(JsonVal::Obj(m)) && keys_unique(m)
                && entries_wf(m) && spec_str_claim(m, "kty"@) is Some),
    {
        let parsed = match parse_json(input) {
            Some(v) => v,
            None => {
                return Err(JoseError::InvalidKeyFormat(String::from_str(
                    "a JWK must be JSON text",
                )));
            },
        };
        let map = match parsed {
            JsonValue::Object(m) => m,
            _ => {
                return Err(JoseError::InvalidKeyFormat(String::from_str(
                    "a JWK must be a JSON object",
                )));
            },
        };
        Self::from_map(map)
    }

    /// Read one parameter.
    pub fn parameter<'a>(&'a self, name: &str) -> (r: Option<&'a JsonValue>)
        ensures
            match r {
                Some(v) => spec_object_get(self.entries(), name@) == Some(jview(*v)),
                None => spec_object_get(self.entries(), name@) is None,
            },
    {
        object_get(&self.map, name)
    }

    /// The string value of one parameter.
    pub fn str_parameter<'a>(&'a self, name: &str) -> (r: Option<&'a String>)
        ensures
            match r {
                Some(s) => spec_str_claim(self.entries(), name@) == Some(s@),
                None => spec_str_claim(self.entries(), name@) is None,
            },
    {
        match self.parameter(name) {
            Some(v) => match v {
                JsonValue::String(s) => Some(s),
                _ => None,
            },
            None => None,
        }
    }

    /// The `kty` parameter.
    pub fn key_type(&self) -> (r: &String)
        requires
            self.wf(),
        ensures
            spec_str_claim(self.entries(), "kty"@) == Some(r@),
    {
        match self.str_parameter("kty") {
            Some(s) => s,
            None => {
                proof {
                    assert(false);
                }
                unreached()
            },
        }
    }

    /// The `use` parameter, when it is a string.
    pub fn key_use(&self) -> (r: Option<&String>)
        ensures
            match r {
                Some(s) => spec_str_claim(self.entries(), "use"@) == Some(s@),
                None => spec_str_claim(self.entries(), "use"@) is None,
            },
    {
        self.str_parameter("use")
    }

    /// The `alg` parameter, when it is a string.
    pub fn algorithm(&self) -> (r: Option<&String>)
        ensures
            match r {
                Some(s) => spec_str_claim(self.entries(), "alg"@) == Some(s@),
                None => spec_str_claim(self.entries(), "alg"@) is None,
            },
    {
        self.str_parameter("alg")
    }

    /// The `kid` parameter, when it is a string.
    pub fn key_id(&self) -> (r: Option<&String>)
        ensures
            match r {
                Some(s) => spec_str_claim(self.entries(), "kid"@) == Some(s@),
                None => spec_str_claim(self.entries(), "kid"@) is None,
            },
    {
        self.str_parameter("kid")
    }

    /// The `key_ops` parameter, when it is an array of strings.
    #[verifier::loop_isolation(false)]
    pub fn key_operations(&self) -> (r: Option<Vec<String>>)
        ensures
            match r {
                Some(v) => spec_strarr_claim(self.entries(), "key_ops"@) == Some(
                    v@.map_values(|s: String| s@),
                ),
                None => spec_strarr_claim(self.entries(), "key_ops"@) is None,
            },
    {
        let v = match self.parameter("key_ops") {
            Some(v) => v,
            None => {
                return None;
            },
        };
        let arr = match v {
            JsonValue::Array(a) => a,
            _ => {
                return None;
            },
        };
        proof {
            lemma_jview_seq(arr@);
            assert(jview(*v) == JsonVal::Arr(crate::json::jview_seq(arr@)));
        }
        let ghost items = crate::json::jview_seq(arr@);
        let mut out: Vec<String> = Vec::new();
        let n = arr.len();
        let mut i: usize = 0;
        while i < n
            invariant
                n == arr@.len(),
                0 <= i <= n,
                out@.len() == i,
                forall|j: int| 0 <= j < i ==> items[j] == JsonVal::Str((#[trigger] out@[j])@),
            decreases n - i,
        {
            match &arr[i] {
                JsonValue::String(s) => {
                    out.push(s.clone());
                },
                _ => {
                    proof {
                        crate::header::lemma_str_list_some(items);
                    }
                    return None;
                },
            }
            i += 1;
        }
        proof {
            assert forall|j: int| 0 <= j < items.len() implies (#[trigger] items[j]) is Str by {
                assert(items[j] == JsonVal::Str(out@[j]@));
            }
            crate::header::lemma_str_list_some(items);
            let l = crate::header::spec_str_list(items).unwrap();
            assert forall|j: int| 0 <= j < l.len() implies l[j] == out@.map_values(|s: String| s@)[j]
            by {
                assert(items[j] == JsonVal::Str(l[j]));
                assert(items[j] == JsonVal::Str(out@[j]@));
            }
            assert(l =~= out@.map_values(|s: String| s@));
        }
        Some(out)
    }
}

/// Whether a string list contains the given name.
pub fn string_list_contains(list: &Vec<String>, name: &str) -> (r: bool)
    ensures
        r == list@.map_values(|s: String| s@).contains(name@),
{
    let n = list.len();
    let mut i: usize = 0;
    while i < n
        invariant
            n == list@.len(),
            0 <= i <= n,
            forall|j: int| 0 <= j < i ==> (#[trigger] list@[j])@ != name@,
        decreases n - i,
    {
        if crate::text::str_eq(list[i].as_str(), name) {
            proof {
                assert(list@.map_values(|s: String| s@)[i as int] == name@);
            }
            return true;
        }
        i += 1;
    }
    proof {
        let mapped = list@.map_values(|s: String| s@);
        if mapped.contains(name@) {
            let j = choose|j: int| 0 <= j < mapped.len() && mapped[j] == name@;
            assert(mapped[j] == list@[j]@);
        }
    }
    false
}

} // verus!
